//! Searching a sequence of names for the first occurrence of one of them.

use vstd::prelude::*;

verus! {

/// The first index at or after `from` at which `names` holds `name`, or
/// `names.len()` when there is none.
pub open spec fn first_index_from(names: Seq<Seq<char>>, name: Seq<char>, from: int) -> int
    decreases names.len() - from,
{
    if from >= names.len() {
        names.len() as int
    } else if names[from] == name {
        from
    } else {
        first_index_from(names, name, from + 1)
    }
}

/// The first index at which `names` holds `name`, or `names.len()` when
/// `name` does not occur.
pub open spec fn first_index(names: Seq<Seq<char>>, name: Seq<char>) -> int {
    first_index_from(names, name, 0)
}

/// Whether `name` occurs in `names`.
pub open spec fn occurs(names: Seq<Seq<char>>, name: Seq<char>) -> bool {
    first_index(names, name) < names.len()
}

/// `first_index_from` lands on the first match at or after `from`.
pub proof fn lemma_first_index_from(names: Seq<Seq<char>>, name: Seq<char>, from: int)
    requires
        0 <= from <= names.len(),
    ensures
        from <= first_index_from(names, name, from) <= names.len(),
        first_index_from(names, name, from) < names.len() ==> names[first_index_from(
            names,
            name,
            from,
        )] == name,
        forall|j: int| from <= j < first_index_from(names, name, from) ==> names[j] != name,
    decreases names.len() - from,
{
    if from < names.len() && names[from] != name {
        lemma_first_index_from(names, name, from + 1);
    }
}

/// `first_index` is in range exactly when the name occurs, and then it is
/// the least index that holds the name.
pub proof fn lemma_first_index(names: Seq<Seq<char>>, name: Seq<char>)
    ensures
        0 <= first_index(names, name) <= names.len(),
        occurs(names, name) <==> names.contains(name),
        occurs(names, name) ==> names[first_index(names, name)] == name,
        forall|j: int| 0 <= j < first_index(names, name) ==> names[j] != name,
{
    lemma_first_index_from(names, name, 0);
    let p = first_index(names, name);
    if names.contains(name) {
        let i = choose|i: int| 0 <= i < names.len() && names[i] == name;
        assert(p <= i);
    }
}

/// An index that holds the name, with no earlier index that does, is the
/// first index of the name.
pub proof fn lemma_first_index_is(names: Seq<Seq<char>>, name: Seq<char>, at: int)
    requires
        0 <= at < names.len(),
        names[at] == name,
        forall|j: int| 0 <= j < at ==> names[j] != name,
    ensures
        first_index(names, name) == at,
{
    lemma_first_index(names, name);
}

/// A name that no index holds does not occur.
pub proof fn lemma_first_index_absent(names: Seq<Seq<char>>, name: Seq<char>)
    requires
        forall|j: int| 0 <= j < names.len() ==> names[j] != name,
    ensures
        !occurs(names, name),
        first_index(names, name) == names.len(),
{
    lemma_first_index(names, name);
}

/// Removing one name leaves every other name where it was, or one index
/// earlier.
pub proof fn lemma_first_index_remove(names: Seq<Seq<char>>, at: int, name: Seq<char>)
    requires
        0 <= at < names.len(),
        names[at] != name,
    ensures
        occurs(names.remove(at), name) == occurs(names, name),
        occurs(names, name) ==> first_index(names.remove(at), name) == if first_index(names, name)
            < at {
            first_index(names, name)
        } else {
            first_index(names, name) - 1
        },
{
    let rest = names.remove(at);
    names.remove_ensures(at);
    lemma_first_index(names, name);
    let p = first_index(names, name);
    if p < names.len() {
        let q = if p < at {
            p
        } else {
            p - 1
        };
        assert(rest[q] == name);
        assert forall|j: int| 0 <= j < q implies rest[j] != name by {
            if j < at {
                assert(rest[j] == names[j]);
            } else {
                assert(rest[j] == names[j + 1]);
            }
        }
        lemma_first_index_is(rest, name, q);
    } else {
        assert forall|j: int| 0 <= j < rest.len() implies rest[j] != name by {
            if j < at {
                assert(rest[j] == names[j]);
            } else {
                assert(rest[j] == names[j + 1]);
            }
        }
        lemma_first_index_absent(rest, name);
    }
}

/// Where the names are pairwise distinct, a name that is removed is gone.
pub proof fn lemma_removed_name_is_gone(names: Seq<Seq<char>>, at: int)
    requires
        names.no_duplicates(),
        0 <= at < names.len(),
    ensures
        !occurs(names.remove(at), names[at]),
{
    let rest = names.remove(at);
    names.remove_ensures(at);
    assert forall|j: int| 0 <= j < rest.len() implies rest[j] != names[at] by {
        if j < at {
            assert(rest[j] == names[j]);
        } else {
            assert(rest[j] == names[j + 1]);
        }
    }
    lemma_first_index_absent(rest, names[at]);
}

/// Inserting one name leaves every other name where it was, or one index
/// later.
pub proof fn lemma_first_index_insert(
    names: Seq<Seq<char>>,
    at: int,
    extra: Seq<char>,
    name: Seq<char>,
)
    requires
        0 <= at <= names.len(),
        extra != name,
    ensures
        occurs(names.insert(at, extra), name) == occurs(names, name),
        occurs(names, name) ==> first_index(names.insert(at, extra), name) == if first_index(
            names,
            name,
        ) < at {
            first_index(names, name)
        } else {
            first_index(names, name) + 1
        },
{
    let more = names.insert(at, extra);
    names.insert_ensures(at, extra);
    assert forall|j: int| 0 <= j < more.len() implies more[j] == if j < at {
        names[j]
    } else if j == at {
        extra
    } else {
        names[j - 1]
    } by {
        if j > at {
            assert(more[(j - 1) + 1] == names[j - 1]);
        }
    }
    lemma_first_index(names, name);
    let p = first_index(names, name);
    if p < names.len() {
        let q = if p < at {
            p
        } else {
            p + 1
        };
        assert(more[q] == name);
        lemma_first_index_is(more, name, q);
    } else {
        lemma_first_index_absent(more, name);
    }
}

} // verus!
