use vstd::prelude::*;

verus! {

/// The names held by a list of strings.
pub open spec fn names_of(v: Seq<String>) -> Seq<Seq<char>> {
    v.map_values(|s: String| s@)
}

/// No name occurs twice in the list.
pub open spec fn distinct(v: Seq<String>) -> bool {
    names_of(v).no_duplicates()
}

/// `n` is one of the names in the list.
pub open spec fn declares(v: Seq<String>, n: Seq<char>) -> bool {
    exists|i: int| 0 <= i < v.len() && #[trigger] v[i]@ == n
}

/// In a list without repeated names, equal names stand at equal positions.
pub proof fn lemma_distinct_index(v: Seq<String>, i: int, j: int)
    requires
        distinct(v),
        0 <= i < v.len(),
        0 <= j < v.len(),
        v[i]@ == v[j]@,
    ensures
        i == j,
{
    assert(names_of(v)[i] == v[i]@);
    assert(names_of(v)[j] == v[j]@);
}

/// The position of `name` in `names`, the first one if it occurs more than
/// once.
pub fn index_of(names: &Vec<String>, name: &String) -> (r: Option<usize>)
    ensures
        match r {
            Some(i) => i < names.len() && names@[i as int]@ == name@ && forall|j: int|
                0 <= j < i ==> #[trigger] names@[j]@ != name@,
            None => !declares(names@, name@),
        },
{
    let mut i: usize = 0;
    while i < names.len()
        invariant
            i <= names.len(),
            forall|j: int| 0 <= j < i ==> #[trigger] names@[j]@ != name@,
        decreases names.len() - i,
    {
        if names[i] == *name {
            return Some(i);
        }
        i = i + 1;
    }
    None
}

/// A name that occurs twice in `names`, or `None` when all are distinct.
pub fn repeated_name(names: &Vec<String>) -> (r: Option<usize>)
    ensures
        r is None <==> distinct(names@),
        match r {
            Some(j) => j < names.len() && exists|i: int|
                0 <= i < j && #[trigger] names@[i]@ == names@[j as int]@,
            None => true,
        },
{
    let mut j: usize = 0;
    while j < names.len()
        invariant
            j <= names.len(),
            forall|a: int, b: int|
                0 <= a < j && 0 <= b < j && a != b ==> #[trigger] names@[a]@ != #[trigger] names@[b]@,
        decreases names.len() - j,
    {
        let mut i: usize = 0;
        while i < j
            invariant
                i <= j < names.len(),
                forall|a: int| 0 <= a < i ==> #[trigger] names@[a]@ != names@[j as int]@,
            decreases j - i,
        {
            if names[i] == names[j] {
                assert(names_of(names@)[i as int] == names_of(names@)[j as int]);
                return Some(j);
            }
            i = i + 1;
        }
        j = j + 1;
    }
    assert forall|a: int, b: int|
        0 <= a < names_of(names@).len() && 0 <= b < names_of(names@).len() && a != b implies
        names_of(names@)[a] != names_of(names@)[b] by {
        assert(names@[a]@ != names@[b]@);
    }
    None
}

} // verus!
