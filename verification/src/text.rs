//! Character-sequence utilities: trimming surrounding whitespace, locating a
//! separator, and splitting a sequence on a separator. These carry the spec
//! model that the directory parser is proved against.

use vstd::prelude::*;

verus! {

/// What `char::is_whitespace` returns for a character: whether it has the
/// Unicode `White_Space` property, a fixed function of the character alone.
pub uninterp spec fn whitespace(c: char) -> bool;

/// Relies on `char::is_whitespace` (core): returns whether the character has
/// the Unicode `White_Space` property, which depends on the character alone.
#[verifier::external_body]
fn is_whitespace_char(c: char) -> (r: bool)
    ensures
        r == whitespace(c),
{
    c.is_whitespace()
}

/// The sequence with its leading whitespace removed.
pub open spec fn trim_start_of(s: Seq<char>) -> Seq<char>
    decreases s.len(),
{
    if s.len() > 0 && whitespace(s[0]) {
        trim_start_of(s.skip(1))
    } else {
        s
    }
}

/// The sequence with its trailing whitespace removed.
pub open spec fn trim_end_of(s: Seq<char>) -> Seq<char>
    decreases s.len(),
{
    if s.len() > 0 && whitespace(s[s.len() - 1]) {
        trim_end_of(s.take(s.len() - 1))
    } else {
        s
    }
}

/// The sequence with both leading and trailing whitespace removed.
pub open spec fn trim_of(s: Seq<char>) -> Seq<char> {
    trim_end_of(trim_start_of(s))
}

/// Removes leading and trailing whitespace characters.
pub fn trim(s: &str) -> (r: &str)
    ensures
        r@ == trim_of(s@),
{
    let len = s.unicode_len();
    let mut start: usize = 0;
    proof {
        assert(s@.skip(0) =~= s@);
    }
    loop
        invariant
            start <= len,
            len == s@.len(),
            trim_start_of(s@) == trim_start_of(s@.skip(start as int)),
        ensures
            start <= len,
            trim_start_of(s@) == s@.subrange(start as int, len as int),
        decreases len - start,
    {
        if start == len {
            proof {
                assert(s@.skip(start as int) =~= s@.subrange(start as int, len as int));
            }
            break;
        }
        let c = s.get_char(start);
        if !is_whitespace_char(c) {
            proof {
                assert(s@.skip(start as int) =~= s@.subrange(start as int, len as int));
            }
            break;
        }
        proof {
            assert(s@.skip(start as int).skip(1) =~= s@.skip(start as int + 1));
        }
        start = start + 1;
    }
    let t = s.substring_char(start, len);
    let tlen = t.unicode_len();
    let mut end: usize = tlen;
    proof {
        assert(t@.take(tlen as int) =~= t@);
    }
    loop
        invariant
            end <= tlen,
            tlen == t@.len(),
            trim_end_of(t@) == trim_end_of(t@.take(end as int)),
        ensures
            end <= tlen,
            trim_end_of(t@) == t@.subrange(0, end as int),
        decreases end,
    {
        if end == 0 {
            proof {
                assert(t@.take(end as int) =~= t@.subrange(0, end as int));
            }
            break;
        }
        let c = t.get_char(end - 1);
        if !is_whitespace_char(c) {
            proof {
                assert(t@.take(end as int) =~= t@.subrange(0, end as int));
            }
            break;
        }
        proof {
            assert(t@.take(end as int).take(end as int - 1) =~= t@.take(end as int - 1));
        }
        end = end - 1;
    }
    t.substring_char(0, end)
}

/// The position of the first occurrence of `c` in `s`, if any.
pub open spec fn find_char(s: Seq<char>, c: char) -> Option<int>
    decreases s.len(),
{
    if s.len() == 0 {
        None
    } else if s[0] == c {
        Some(0int)
    } else {
        match find_char(s.skip(1), c) {
            Some(i) => Some(i + 1),
            None => None,
        }
    }
}

/// `find_char` returns the first occurrence: the character stands at the
/// returned position and nowhere earlier; `None` means it occurs nowhere.
pub proof fn lemma_find_char(s: Seq<char>, c: char)
    ensures
        match find_char(s, c) {
            Some(i) => 0 <= i < s.len() && s[i] == c && (forall|j: int| 0 <= j < i ==> s[j] != c),
            None => forall|j: int| 0 <= j < s.len() ==> s[j] != c,
        },
    decreases s.len(),
{
    if s.len() > 0 && s[0] != c {
        lemma_find_char(s.skip(1), c);
        match find_char(s.skip(1), c) {
            Some(i) => {
                assert(s[i + 1] == s.skip(1)[i]);
                assert forall|j: int| 0 <= j < i + 1 implies s[j] != c by {
                    if j > 0 {
                        assert(s[j] == s.skip(1)[j - 1]);
                    }
                }
            },
            None => {
                assert forall|j: int| 0 <= j < s.len() implies s[j] != c by {
                    if j > 0 {
                        assert(s[j] == s.skip(1)[j - 1]);
                    }
                }
            },
        }
    }
}

/// Conversely, a position that holds `c` with no occurrence before it is what
/// `find_char` returns.
pub proof fn lemma_find_char_at(s: Seq<char>, c: char, i: int)
    requires
        0 <= i < s.len(),
        s[i] == c,
        forall|j: int| 0 <= j < i ==> s[j] != c,
    ensures
        find_char(s, c) == Some(i),
{
    lemma_find_char(s, c);
}

/// The segments of `s` between occurrences of the separator, in order. A
/// sequence without the separator is a single segment; each separator ends a
/// segment, so `n` separators yield `n + 1` segments.
pub open spec fn split_on(s: Seq<char>, sep: char) -> Seq<Seq<char>>
    decreases s.len(),
{
    if s.len() == 0 {
        seq![Seq::<char>::empty()]
    } else if s[0] == sep {
        seq![Seq::<char>::empty()] + split_on(s.skip(1), sep)
    } else {
        let rest = split_on(s.skip(1), sep);
        seq![seq![s[0]] + rest[0]] + rest.skip(1)
    }
}

/// Splitting yields at least one segment.
pub proof fn lemma_split_on_len(s: Seq<char>, sep: char)
    ensures
        split_on(s, sep).len() >= 1,
    decreases s.len(),
{
    if s.len() > 0 {
        lemma_split_on_len(s.skip(1), sep);
    }
}

/// A sequence free of the separator is a single segment.
pub proof fn lemma_split_on_no_sep(s: Seq<char>, sep: char)
    requires
        forall|j: int| 0 <= j < s.len() ==> s[j] != sep,
    ensures
        split_on(s, sep) == seq![s],
    decreases s.len(),
{
    if s.len() == 0 {
        assert(seq![Seq::<char>::empty()] =~~= seq![s]);
    } else {
        assert(forall|j: int| 0 <= j < s.skip(1).len() ==> s.skip(1)[j] != sep);
        lemma_split_on_no_sep(s.skip(1), sep);
        let rest = split_on(s.skip(1), sep);
        assert(seq![s[0]] + rest[0] =~= s);
        assert(seq![seq![s[0]] + rest[0]] + rest.skip(1) =~~= seq![s]);
    }
}

/// Splitting peels the part before the first separator off as the first
/// segment and continues after it.
pub proof fn lemma_split_on_first_sep(s: Seq<char>, sep: char, i: int)
    requires
        0 <= i < s.len(),
        s[i] == sep,
        forall|j: int| 0 <= j < i ==> s[j] != sep,
    ensures
        split_on(s, sep) == seq![s.take(i)] + split_on(s.skip(i + 1), sep),
    decreases i,
{
    if i == 0 {
        assert(s.take(0) =~= Seq::<char>::empty());
        assert(split_on(s, sep) =~~= seq![s.take(0)] + split_on(s.skip(1), sep));
    } else {
        let tail = s.skip(1);
        assert(tail[i - 1] == sep);
        assert(forall|j: int| 0 <= j < i - 1 ==> tail[j] != sep);
        lemma_split_on_first_sep(tail, sep, i - 1);
        let after = split_on(tail.skip(i), sep);
        assert(tail.skip(i) =~= s.skip(i + 1));
        lemma_split_on_len(s.skip(i + 1), sep);
        let rest = split_on(tail, sep);
        assert(rest == seq![tail.take(i - 1)] + after);
        assert(rest[0] == tail.take(i - 1));
        assert(seq![s[0]] + tail.take(i - 1) =~= s.take(i));
        assert(rest.skip(1) =~~= after);
        assert(seq![seq![s[0]] + rest[0]] + rest.skip(1) =~~= seq![s.take(i)] + split_on(
            s.skip(i + 1),
            sep,
        ));
    }
}

} // verus!
