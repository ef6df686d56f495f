//! Sequences of names: lookup by exact match, duplicate detection,
//! de-duplication, suffix tests and newline-terminated listings.

use vstd::prelude::*;
use vstd::std_specs::iter::IteratorSpec;

verus! {

/// The names of a list, each as its sequence of characters.
pub open spec fn views(names: Seq<String>) -> Seq<Seq<char>> {
    Seq::new(names.len(), |i: int| names[i]@)
}

/// `i` is the first position at which `key` occurs in `names`.
pub open spec fn is_first_match(names: Seq<Seq<char>>, key: Seq<char>, i: int) -> bool {
    &&& 0 <= i < names.len()
    &&& names[i] == key
    &&& forall|j: int| 0 <= j < i ==> names[j] != key
}

/// `j` is the first position whose name already occurred before it.
pub open spec fn is_first_repeat(names: Seq<Seq<char>>, j: int) -> bool {
    &&& 0 <= j < names.len()
    &&& names.take(j).contains(names[j])
    &&& names.take(j).no_duplicates()
}

/// The names of `names` in order of first occurrence, each kept once.
pub open spec fn distinct(names: Seq<Seq<char>>) -> Seq<Seq<char>>
    decreases names.len(),
{
    if names.len() == 0 {
        names
    } else {
        let before = distinct(names.drop_last());
        if before.contains(names.last()) {
            before
        } else {
            before.push(names.last())
        }
    }
}

/// `s` ends with `suffix`.
pub open spec fn ends_with(s: Seq<char>, suffix: Seq<char>) -> bool {
    suffix.len() <= s.len() && s.subrange(s.len() - suffix.len(), s.len() as int) == suffix
}

/// The text that holds every name followed by a line feed.
pub open spec fn lines_text(names: Seq<Seq<char>>) -> Seq<char>
    decreases names.len(),
{
    if names.len() == 0 {
        Seq::empty()
    } else {
        lines_text(names.drop_last()) + names.last() + seq!['\n']
    }
}

/// Finds the first name equal to `key`; the match is exact and case-sensitive.
pub fn position_of(names: &Vec<String>, key: &str) -> (r: Option<usize>)
    ensures
        match r {
            Some(i) => is_first_match(views(names@), key@, i as int),
            None => !views(names@).contains(key@),
        },
{
    let wanted = String::from_str(key);
    let mut i: usize = 0;
    while i < names.len()
        invariant
            i <= names.len(),
            wanted@ == key@,
            forall|j: int| 0 <= j < i ==> views(names@)[j] != key@,
        decreases names.len() - i,
    {
        if names[i] == wanted {
            return Some(i);
        }
        i += 1;
    }
    None
}

/// Finds the first name that repeats an earlier one.
pub fn first_repeat(names: &Vec<String>) -> (r: Option<usize>)
    ensures
        match r {
            Some(j) => is_first_repeat(views(names@), j as int),
            None => views(names@).no_duplicates(),
        },
{
    let ghost all = views(names@);
    let mut j: usize = 0;
    while j < names.len()
        invariant
            j <= names.len(),
            all == views(names@),
            all.take(j as int).no_duplicates(),
        decreases names.len() - j,
    {
        assert(all[j as int] == names@[j as int]@);
        if let Some(i) = position_of(names, names[j].as_str()) {
            if i < j {
                assert(all.take(j as int)[i as int] == all[j as int]);
                return Some(j);
            }
        }
        proof {
            let shorter = all.take(j as int);
            let longer = all.take(j + 1);
            assert forall|a: int, b: int|
                0 <= a < longer.len() && 0 <= b < longer.len() && a != b implies #[trigger] longer[a]
                != #[trigger] longer[b] by {
                if a < j && b < j {
                    assert(shorter[a] != shorter[b]);
                }
            }
        }
        j += 1;
    }
    assert(all.take(names.len() as int) =~= all);
    None
}

/// Keeps the first occurrence of every name, in the order given.
pub fn distinct_names(names: &Vec<String>) -> (r: Vec<String>)
    ensures
        views(r@) == distinct(views(names@)),
{
    let ghost all = views(names@);
    let mut out: Vec<String> = Vec::new();
    let mut i: usize = 0;
    assert(views(out@) =~= distinct(all.take(0)));
    while i < names.len()
        invariant
            i <= names.len(),
            all == views(names@),
            views(out@) == distinct(all.take(i as int)),
        decreases names.len() - i,
    {
        let ghost before = views(out@);
        assert(all.take(i + 1).drop_last() =~= all.take(i as int));
        assert(all.take(i + 1).last() == names@[i as int]@);
        if position_of(&out, names[i].as_str()).is_none() {
            out.push(names[i].clone());
            assert(views(out@) =~= before.push(names@[i as int]@));
        }
        i += 1;
    }
    assert(all.take(names.len() as int) =~= all);
    out
}

/// The characters of a string, in order.
pub fn chars_of(s: &str) -> (r: Vec<char>)
    ensures
        r@ == s@,
{
    let mut out: Vec<char> = Vec::new();
    let mut rest = s.chars();
    assert(rest.remaining() == s@);
    loop
        invariant
            out@ + rest.remaining() == s@,
            rest.obeys_prophetic_iter_laws(),
            rest.decrease() is Some,
        decreases rest.decrease()->0,
    {
        match rest.next() {
            Some(c) => {
                out.push(c);
                assert(out@ + rest.remaining() =~= s@);
            },
            None => {
                assert(out@ =~= s@);
                return out;
            },
        }
    }
}

/// Tells whether `s` ends with `suffix`.
pub fn has_suffix(s: &str, suffix: &str) -> (r: bool)
    ensures
        r == ends_with(s@, suffix@),
{
    let whole = chars_of(s);
    let end = chars_of(suffix);
    let n = whole.len();
    let m = end.len();
    if m > n {
        return false;
    }
    let start: usize = n - m;
    let ghost tail = s@.subrange(start as int, n as int);
    let mut k: usize = 0;
    while k < m
        invariant
            k <= m,
            m <= n,
            start == n - m,
            whole@ == s@,
            end@ == suffix@,
            n == s@.len(),
            m == suffix@.len(),
            tail == s@.subrange(start as int, n as int),
            forall|j: int| 0 <= j < k ==> tail[j] == suffix@[j],
        decreases m - k,
    {
        if whole[start + k] != end[k] {
            assert(tail[k as int] != suffix@[k as int]);
            return false;
        }
        k += 1;
    }
    assert(tail =~= suffix@);
    true
}

/// Writes every name on a line of its own.
pub fn join_lines(names: &Vec<String>) -> (r: String)
    ensures
        r@ == lines_text(views(names@)),
{
    let ghost all = views(names@);
    let mut out = String::new();
    let mut i: usize = 0;
    assert(all.take(0) =~= Seq::<Seq<char>>::empty());
    while i < names.len()
        invariant
            i <= names.len(),
            all == views(names@),
            out@ == lines_text(all.take(i as int)),
        decreases names.len() - i,
    {
        proof {
            reveal_strlit("\n");
            assert("\n"@ =~= seq!['\n']);
            assert(all.take(i + 1).drop_last() =~= all.take(i as int));
            assert(all.take(i + 1).last() == names@[i as int]@);
        }
        out.append(names[i].as_str());
        out.append("\n");
        i += 1;
    }
    assert(all.take(names.len() as int) =~= all);
    out
}

/// De-duplication keeps every name and repeats none.
pub proof fn distinct_is_a_set(names: Seq<Seq<char>>)
    ensures
        distinct(names).no_duplicates(),
        forall|name: Seq<char>| distinct(names).contains(name) <==> names.contains(name),
    decreases names.len(),
{
    if names.len() > 0 {
        let shorter = names.drop_last();
        let before = distinct(shorter);
        let kept = distinct(names);
        distinct_is_a_set(shorter);
        assert forall|name: Seq<char>| kept.contains(name) <==> names.contains(name) by {
            if kept.contains(name) {
                let k = choose|k: int| 0 <= k < kept.len() && kept[k] == name;
                if k < before.len() {
                    assert(before[k] == name);
                    assert(before.contains(name));
                    assert(shorter.contains(name));
                    let m = choose|m: int| 0 <= m < shorter.len() && shorter[m] == name;
                    assert(names[m] == name);
                } else {
                    assert(name == names.last());
                    assert(names[names.len() - 1] == name);
                }
            }
            if names.contains(name) {
                let m = choose|m: int| 0 <= m < names.len() && names[m] == name;
                if m < shorter.len() {
                    assert(shorter[m] == name);
                    assert(shorter.contains(name));
                    assert(before.contains(name));
                    let k = choose|k: int| 0 <= k < before.len() && before[k] == name;
                    assert(kept[k] == name);
                } else {
                    assert(name == names.last());
                    if !before.contains(name) {
                        assert(kept[before.len() as int] == name);
                    }
                }
            }
        }
        assert forall|a: int, b: int|
            0 <= a < kept.len() && 0 <= b < kept.len() && a != b implies #[trigger] kept[a]
            != #[trigger] kept[b] by {
            if a < before.len() && b < before.len() {
                assert(before[a] != before[b]);
            } else if a < before.len() {
                assert(before.contains(before[a]));
            } else if b < before.len() {
                assert(before.contains(before[b]));
            }
        }
    }
}

} // verus!
