//! Finding the first item of a sequence that has a property.

use vstd::prelude::*;
use vstd::string::*;

verus! {

/// The position of the first item of `s` for which `p` holds, if there is
/// one.
pub open spec fn first_position<T>(s: Seq<T>, p: spec_fn(T) -> bool) -> Option<int>
    decreases s.len(),
{
    if s.len() == 0 {
        None
    } else if p(s[0]) {
        Some(0)
    } else {
        match first_position(s.drop_first(), p) {
            Some(i) => Some(i + 1),
            None => None,
        }
    }
}

/// `first_position` finds an item with the property before which none has
/// it, and finds nothing only where no item has it.
pub proof fn lemma_first_position<T>(s: Seq<T>, p: spec_fn(T) -> bool)
    ensures
        match first_position(s, p) {
            Some(i) => 0 <= i < s.len() && p(s[i]) && forall|j: int| 0 <= j < i ==> !p(#[trigger] s[j]),
            None => forall|j: int| 0 <= j < s.len() ==> !p(#[trigger] s[j]),
        },
    decreases s.len(),
{
    if s.len() > 0 && !p(s[0]) {
        let rest = s.drop_first();
        lemma_first_position(rest, p);
        match first_position(rest, p) {
            Some(i) => {
                assert forall|j: int| 0 <= j < i + 1 implies !p(#[trigger] s[j]) by {
                    if j >= 1 {
                        assert(s[j] == rest[j - 1]);
                    }
                }
            },
            None => {
                assert forall|j: int| 0 <= j < s.len() implies !p(#[trigger] s[j]) by {
                    if j >= 1 {
                        assert(s[j] == rest[j - 1]);
                    }
                }
            },
        }
    }
}

/// How many of the first `n` marks are not set.
pub open spec fn unmarked_count(marks: Seq<bool>, n: int) -> int
    decreases n,
{
    if n <= 0 {
        0
    } else {
        unmarked_count(marks, n - 1) + if marks[n - 1] {
            0int
        } else {
            1int
        }
    }
}

/// Where no mark is set, every position counts.
pub proof fn lemma_unmarked_fresh(marks: Seq<bool>, n: int)
    requires
        0 <= n <= marks.len(),
        forall|i: int| 0 <= i < n ==> !marks[i],
    ensures
        unmarked_count(marks, n) == n,
    decreases n,
{
    if n > 0 {
        lemma_unmarked_fresh(marks, n - 1);
    }
}

/// Setting a mark that was not set takes one from the count.
pub proof fn lemma_unmarked_set(marks: Seq<bool>, j: int, n: int)
    requires
        0 <= n <= marks.len(),
        0 <= j < marks.len(),
        !marks[j],
    ensures
        unmarked_count(marks.update(j, true), n) == unmarked_count(marks, n) - if j < n {
            1int
        } else {
            0
        },
    decreases n,
{
    if n > 0 {
        lemma_unmarked_set(marks, j, n - 1);
    }
}

/// The count is zero exactly where every mark is set.
pub proof fn lemma_unmarked_zero(marks: Seq<bool>, n: int)
    requires
        0 <= n <= marks.len(),
    ensures
        unmarked_count(marks, n) >= 0,
        unmarked_count(marks, n) == 0 <==> forall|i: int| 0 <= i < n ==> marks[i],
    decreases n,
{
    if n > 0 {
        lemma_unmarked_zero(marks, n - 1);
    }
}

/// The items of `s`, each once, in the order in which they first occur.
pub open spec fn distinct<T>(s: Seq<T>) -> Seq<T>
    decreases s.len(),
{
    if s.len() == 0 {
        Seq::empty()
    } else {
        let before = distinct(s.drop_last());
        if before.contains(s.last()) {
            before
        } else {
            before.push(s.last())
        }
    }
}

/// `distinct` repeats nothing, and holds exactly the items of the
/// sequence.
pub proof fn lemma_distinct<T>(s: Seq<T>)
    ensures
        distinct(s).no_duplicates(),
        forall|x: T| #[trigger] distinct(s).contains(x) <==> s.contains(x),
    decreases s.len(),
{
    if s.len() > 0 {
        let rest = s.drop_last();
        let last = s.last();
        lemma_distinct(rest);
        let before = distinct(rest);
        let after = distinct(s);
        assert(after == if before.contains(last) {
            before
        } else {
            before.push(last)
        });
        assert forall|x: T| #[trigger] after.contains(x) <==> s.contains(x) by {
            assert(before.contains(x) <==> rest.contains(x));
            if s.contains(x) {
                let i = choose|i: int| 0 <= i < s.len() && s[i] == x;
                if i < rest.len() {
                    assert(rest[i] == x);
                    assert(rest.contains(x));
                    let j = choose|j: int| 0 <= j < before.len() && before[j] == x;
                    assert(after[j] == x);
                } else {
                    assert(x == last);
                    if !before.contains(last) {
                        assert(after[before.len() as int] == x);
                    }
                }
            }
            if after.contains(x) {
                let j = choose|j: int| 0 <= j < after.len() && after[j] == x;
                if j < before.len() {
                    assert(before[j] == x);
                    assert(before.contains(x));
                    let i = choose|i: int| 0 <= i < rest.len() && rest[i] == x;
                    assert(s[i] == x);
                } else {
                    assert(s[s.len() - 1] == x);
                }
            }
        }
    }
}

/// `text` begins with `prefix`.
pub open spec fn begins_with(text: Seq<char>, prefix: Seq<char>) -> bool {
    text.len() >= prefix.len() && text.take(prefix.len() as int) == prefix
}

/// Whether `text` begins with `prefix`.
pub fn starts_with(text: &String, prefix: &str) -> (r: bool)
    ensures
        r == begins_with(text@, prefix@),
{
    let length = prefix.unicode_len();
    if text.as_str().unicode_len() < length {
        return false;
    }
    let beginning = String::from_str(text.as_str().substring_char(0, length));
    let wanted = String::from_str(prefix);
    assert(text@.subrange(0, length as int) =~= text@.take(length as int));
    beginning == wanted
}

} // verus!
