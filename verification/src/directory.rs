//! The name-to-email directory: a mapping parsed from a single configuration
//! string of comma-separated `name=email` pairs. Parsing is permissive:
//! malformed segments are silently skipped, and on duplicate names the last
//! occurrence wins.

use vstd::prelude::*;

use crate::text::{
    find_char, lemma_find_char, lemma_find_char_at, lemma_split_on_first_sep,
    lemma_split_on_no_sep, split_on, trim, trim_of,
};

verus! {

/// The key/value pair a segment contributes, if any: the part before the
/// first `=` and the part after it, both trimmed, provided both are
/// non-empty. A segment without `=`, or with an empty trimmed key or value,
/// contributes nothing.
pub open spec fn pair_of(seg: Seq<char>) -> Option<(Seq<char>, Seq<char>)> {
    match find_char(seg, '=') {
        None => None,
        Some(i) => {
            let k = trim_of(seg.take(i));
            let v = trim_of(seg.skip(i + 1));
            if k.len() > 0 && v.len() > 0 {
                Some((k, v))
            } else {
                None
            }
        },
    }
}

/// The mapping the segments build up, in order: each well-formed segment
/// inserts its pair, so a later segment overrides an earlier one with the
/// same key.
pub open spec fn directory_of_segments(segs: Seq<Seq<char>>) -> Map<Seq<char>, Seq<char>>
    decreases segs.len(),
{
    if segs.len() == 0 {
        Map::empty()
    } else {
        let m = directory_of_segments(segs.drop_last());
        match pair_of(segs.last()) {
            Some(p) => m.insert(p.0, p.1),
            None => m,
        }
    }
}

/// The mapping a whole configuration string denotes: its comma-separated
/// segments, folded in order.
pub open spec fn parse_directory(s: Seq<char>) -> Map<Seq<char>, Seq<char>> {
    directory_of_segments(split_on(s, ','))
}

/// The mapping a sequence of stored entries denotes, later entries
/// overriding earlier ones.
pub open spec fn map_of_entries(es: Seq<(String, String)>) -> Map<Seq<char>, Seq<char>>
    decreases es.len(),
{
    if es.len() == 0 {
        Map::empty()
    } else {
        map_of_entries(es.drop_last()).insert(es.last().0@, es.last().1@)
    }
}

/// The value of the last entry whose key is `name`, if any.
spec fn lookup_entries(es: Seq<(String, String)>, name: Seq<char>) -> Option<Seq<char>>
    decreases es.len(),
{
    if es.len() == 0 {
        None
    } else if es.last().0@ == name {
        Some(es.last().1@)
    } else {
        lookup_entries(es.drop_last(), name)
    }
}

/// Scanning the entries from the back agrees with the mapping they denote.
proof fn lemma_lookup_entries(es: Seq<(String, String)>, name: Seq<char>)
    ensures
        map_of_entries(es).contains_key(name) <==> lookup_entries(es, name) is Some,
        lookup_entries(es, name) matches Some(v) ==> map_of_entries(es)[name] == v,
    decreases es.len(),
{
    if es.len() > 0 {
        lemma_lookup_entries(es.drop_last(), name);
    }
}

/// The exact-match mapping from recipient name to email address, rebuilt per
/// invocation from the configuration string and immutable afterwards.
#[derive(Debug)]
pub struct Directory {
    pub entries: Vec<(String, String)>,
}

impl View for Directory {
    type V = Map<Seq<char>, Seq<char>>;

    open spec fn view(&self) -> Map<Seq<char>, Seq<char>> {
        map_of_entries(self.entries@)
    }
}

impl Directory {
    /// Resolves a recipient name to the email address it was configured
    /// with: a value is returned exactly when the name is a key of the
    /// directory, and it is that key's value.
    pub fn lookup(&self, name: &String) -> (r: Option<&String>)
        ensures
            match r {
                Some(email) => self@.contains_key(name@) && email@ == self@[name@],
                None => !self@.contains_key(name@),
            },
    {
        proof {
            lemma_lookup_entries(self.entries@, name@);
        }
        let n = self.entries.len();
        let mut i: usize = n;
        proof {
            assert(self.entries@.take(n as int) =~= self.entries@);
        }
        while i > 0
            invariant
                i <= n,
                n == self.entries@.len(),
                lookup_entries(self.entries@, name@) == lookup_entries(
                    self.entries@.take(i as int),
                    name@,
                ),
            decreases i,
        {
            let pair = &self.entries[i - 1];
            if pair.0 == *name {
                proof {
                    let es = self.entries@;
                    assert(es.take(i as int).last() == es[i as int - 1]);
                    assert(lookup_entries(es, name@) == Some(es[i as int - 1].1@));
                    lemma_lookup_entries(es, name@);
                }
                return Some(&pair.1);
            }
            proof {
                assert(self.entries@.take(i as int).drop_last() =~= self.entries@.take(
                    i as int - 1,
                ));
            }
            i = i - 1;
        }
        None
    }
}

/// The position of the first `=` in the segment, if it has one.
fn find_first_eq(s: &str) -> (r: Option<usize>)
    ensures
        match r {
            Some(k) => find_char(s@, '=') == Some(k as int),
            None => find_char(s@, '=') is None,
        },
{
    let len = s.unicode_len();
    let mut i: usize = 0;
    while i < len
        invariant
            i <= len,
            len == s@.len(),
            forall|j: int| 0 <= j < i ==> s@[j] != '=',
        decreases len - i,
    {
        let c = s.get_char(i);
        if c == '=' {
            proof {
                lemma_find_char_at(s@, '=', i as int);
            }
            return Some(i);
        }
        i = i + 1;
    }
    proof {
        lemma_find_char(s@, '=');
    }
    None
}

/// Splits one segment into its trimmed key/value pair, or nothing where the
/// segment is malformed.
fn parse_segment(seg: &str) -> (r: Option<(String, String)>)
    ensures
        match r {
            Some(p) => pair_of(seg@) == Some((p.0@, p.1@)),
            None => pair_of(seg@) is None,
        },
{
    let len = seg.unicode_len();
    match find_first_eq(seg) {
        None => None,
        Some(pos) => {
            proof {
                lemma_find_char(seg@, '=');
            }
            let key_part = seg.substring_char(0, pos);
            let val_part = seg.substring_char(pos + 1, len);
            let k = trim(key_part);
            let v = trim(val_part);
            proof {
                assert(seg@.subrange(0, pos as int) =~= seg@.take(pos as int));
                assert(seg@.subrange(pos as int + 1, len as int) =~= seg@.skip(pos as int + 1));
            }
            if k.unicode_len() > 0 && v.unicode_len() > 0 {
                Some((k.to_owned(), v.to_owned()))
            } else {
                None
            }
        },
    }
}

/// Parses the configuration string into the directory it denotes: the string
/// is split on commas, each segment is split on its first `=` and trimmed,
/// and malformed segments are skipped. Every input parses; an empty or
/// entirely malformed string yields an empty directory.
pub fn split_to_map(receiver_email_by_name_list: &str) -> (d: Directory)
    ensures
        d@ == parse_directory(receiver_email_by_name_list@),
{
    let s = receiver_email_by_name_list;
    let len = s.unicode_len();
    let mut entries: Vec<(String, String)> = Vec::new();
    let ghost mut segs: Seq<Seq<char>> = Seq::empty();
    let mut start: usize = 0;
    let mut i: usize = 0;
    proof {
        assert(s@.skip(0) =~= s@);
        assert(Seq::<Seq<char>>::empty() + split_on(s@, ',') =~~= split_on(s@, ','));
    }
    while i < len
        invariant
            start <= i <= len,
            len == s@.len(),
            forall|j: int| start <= j < i ==> s@[j] != ',',
            map_of_entries(entries@) == directory_of_segments(segs),
            split_on(s@, ',') == segs + split_on(s@.skip(start as int), ','),
        decreases len - i,
    {
        let c = s.get_char(i);
        if c == ',' {
            let seg = s.substring_char(start, i);
            proof {
                let tail = s@.skip(start as int);
                assert(forall|j: int| 0 <= j <= i - start as int ==> tail[j] == s@[start + j]);
                assert(tail[i - start as int] == ',');
                lemma_split_on_first_sep(tail, ',', i - start as int);
                assert(seg@ =~= tail.take(i - start as int));
                assert(tail.skip(i - start as int + 1) =~= s@.skip(i as int + 1));
                assert(segs + split_on(tail, ',') =~~= (segs + seq![seg@]) + split_on(
                    s@.skip(i as int + 1),
                    ',',
                ));
            }
            match parse_segment(seg) {
                Some(p) => {
                    let ghost prev = entries@;
                    entries.push(p);
                    proof {
                        assert(entries@.drop_last() =~= prev);
                    }
                },
                None => {},
            }
            proof {
                assert((segs + seq![seg@]).drop_last() =~~= segs);
                segs = segs + seq![seg@];
            }
            start = i + 1;
        }
        i = i + 1;
    }
    let seg = s.substring_char(start, len);
    proof {
        lemma_split_on_no_sep(s@.skip(start as int), ',');
        assert(seg@ =~= s@.skip(start as int));
        assert(segs + split_on(s@.skip(start as int), ',') =~~= segs + seq![seg@]);
    }
    match parse_segment(seg) {
        Some(p) => {
            let ghost prev = entries@;
            entries.push(p);
            proof {
                assert(entries@.drop_last() =~= prev);
            }
        },
        None => {},
    }
    proof {
        assert((segs + seq![seg@]).drop_last() =~~= segs);
        segs = segs + seq![seg@];
    }
    Directory { entries }
}

/// A malformed segment — one that yields no key/value pair — is silently
/// excluded: wherever it stands among the segments, the directory built from
/// them is the directory built without it. Parsing itself never fails; an
/// entirely malformed string simply yields the empty directory.
pub proof fn lemma_malformed_segment_excluded(
    before: Seq<Seq<char>>,
    bad: Seq<char>,
    after: Seq<Seq<char>>,
)
    requires
        pair_of(bad) is None,
    ensures
        directory_of_segments(before + seq![bad] + after) == directory_of_segments(
            before + after,
        ),
    decreases after.len(),
{
    if after.len() == 0 {
        assert(before + after =~~= before);
        assert(before + seq![bad] + after =~~= before + seq![bad]);
        assert((before + seq![bad]).drop_last() =~~= before);
        assert((before + seq![bad]).last() == bad);
    } else {
        lemma_malformed_segment_excluded(before, bad, after.drop_last());
        assert((before + seq![bad] + after).drop_last() =~~= before + seq![bad]
            + after.drop_last());
        assert((before + after).drop_last() =~~= before + after.drop_last());
        assert((before + seq![bad] + after).last() == after.last());
        assert((before + after).last() == after.last());
    }
}

/// The single segment a key/value pair writes: `key=value`.
pub open spec fn pair_segment(k: Seq<char>, v: Seq<char>) -> Seq<char> {
    k + seq!['='] + v
}

/// A configuration string of pairs joined with commas: `k1=v1,k2=v2,...`.
pub open spec fn join_pairs(ps: Seq<(Seq<char>, Seq<char>)>) -> Seq<char>
    decreases ps.len(),
{
    if ps.len() == 0 {
        Seq::empty()
    } else if ps.len() == 1 {
        pair_segment(ps[0].0, ps[0].1)
    } else {
        pair_segment(ps[0].0, ps[0].1) + seq![','] + join_pairs(ps.skip(1))
    }
}

/// A well-formed written pair: the key holds no comma and no equals sign, the
/// value holds no comma, and both are non-empty once trimmed.
pub open spec fn well_formed_pair(k: Seq<char>, v: Seq<char>) -> bool {
    &&& !k.contains(',')
    &&& !k.contains('=')
    &&& !v.contains(',')
    &&& trim_of(k).len() > 0
    &&& trim_of(v).len() > 0
}

/// The mapping a pair list denotes on its own: each key maps to its value,
/// both trimmed, later pairs overriding earlier ones.
pub open spec fn directory_of_pairs(ps: Seq<(Seq<char>, Seq<char>)>) -> Map<Seq<char>, Seq<char>>
    decreases ps.len(),
{
    if ps.len() == 0 {
        Map::empty()
    } else {
        directory_of_pairs(ps.drop_last()).insert(trim_of(ps.last().0), trim_of(ps.last().1))
    }
}

/// The segments the written pairs occupy, in order.
spec fn segments_of_pairs(ps: Seq<(Seq<char>, Seq<char>)>) -> Seq<Seq<char>> {
    ps.map_values(|p: (Seq<char>, Seq<char>)| pair_segment(p.0, p.1))
}

/// A well-formed pair's segment parses back to the pair, trimmed.
proof fn lemma_pair_of_segment(k: Seq<char>, v: Seq<char>)
    requires
        well_formed_pair(k, v),
    ensures
        pair_of(pair_segment(k, v)) == Some((trim_of(k), trim_of(v))),
{
    let seg = pair_segment(k, v);
    assert(seg[k.len() as int] == '=');
    assert forall|j: int| 0 <= j < k.len() implies seg[j] != '=' by {
        assert(seg[j] == k[j]);
        if k[j] == '=' {
            assert(k.contains('='));
        }
    }
    lemma_find_char_at(seg, '=', k.len() as int);
    assert(seg.take(k.len() as int) =~= k);
    assert(seg.skip(k.len() as int + 1) =~= v);
}

/// No character of a well-formed pair's segment is a comma.
proof fn lemma_pair_segment_no_comma(k: Seq<char>, v: Seq<char>)
    requires
        well_formed_pair(k, v),
    ensures
        forall|j: int| 0 <= j < pair_segment(k, v).len() ==> pair_segment(k, v)[j] != ',',
{
    let seg = pair_segment(k, v);
    assert forall|j: int| 0 <= j < seg.len() implies seg[j] != ',' by {
        if j < k.len() {
            assert(seg[j] == k[j]);
            if k[j] == ',' {
                assert(k.contains(','));
            }
        } else if j == k.len() {
            assert(seg[j] == '=');
        } else {
            assert(seg[j] == v[j - k.len() - 1]);
            if v[j - k.len() - 1] == ',' {
                assert(v.contains(','));
            }
        }
    }
}

/// Splitting the joined pair list on commas recovers exactly the written
/// segments.
proof fn lemma_split_join_pairs(ps: Seq<(Seq<char>, Seq<char>)>)
    requires
        ps.len() >= 1,
        forall|i: int| 0 <= i < ps.len() ==> #[trigger] well_formed_pair(ps[i].0, ps[i].1),
    ensures
        split_on(join_pairs(ps), ',') == segments_of_pairs(ps),
    decreases ps.len(),
{
    let seg0 = pair_segment(ps[0].0, ps[0].1);
    lemma_pair_segment_no_comma(ps[0].0, ps[0].1);
    if ps.len() == 1 {
        lemma_split_on_no_sep(seg0, ',');
        assert(seq![seg0] =~~= segments_of_pairs(ps));
    } else {
        let s = join_pairs(ps);
        let rest = ps.skip(1);
        assert(forall|i: int| 0 <= i < rest.len() ==> #[trigger] well_formed_pair(
            rest[i].0,
            rest[i].1,
        ));
        lemma_split_join_pairs(rest);
        assert(s[seg0.len() as int] == ',');
        assert forall|j: int| 0 <= j < seg0.len() implies s[j] != ',' by {
            assert(s[j] == seg0[j]);
        }
        lemma_split_on_first_sep(s, ',', seg0.len() as int);
        assert(s.take(seg0.len() as int) =~= seg0);
        assert(s.skip(seg0.len() as int + 1) =~= join_pairs(rest));
        assert(seq![seg0] + segments_of_pairs(rest) =~~= segments_of_pairs(ps));
    }
}

/// The directory the written segments build is the mapping the pairs denote.
proof fn lemma_directory_of_segments_of_pairs(ps: Seq<(Seq<char>, Seq<char>)>)
    requires
        forall|i: int| 0 <= i < ps.len() ==> #[trigger] well_formed_pair(ps[i].0, ps[i].1),
    ensures
        directory_of_segments(segments_of_pairs(ps)) == directory_of_pairs(ps),
    decreases ps.len(),
{
    let segs = segments_of_pairs(ps);
    if ps.len() == 0 {
        assert(segs.len() == 0);
    } else {
        let front = ps.drop_last();
        assert(forall|i: int| 0 <= i < front.len() ==> #[trigger] well_formed_pair(
            front[i].0,
            front[i].1,
        ));
        lemma_directory_of_segments_of_pairs(front);
        lemma_pair_of_segment(ps.last().0, ps.last().1);
        assert(segs.drop_last() =~~= segments_of_pairs(front));
        assert(segs.last() == pair_segment(ps.last().0, ps.last().1));
    }
}

/// Parsing a configuration string written as comma-separated well-formed
/// `key=value` pairs yields exactly the mapping those pairs denote, with
/// keys and values trimmed and a later pair overriding an earlier one with
/// the same trimmed key.
pub proof fn lemma_parse_well_formed_pairs(ps: Seq<(Seq<char>, Seq<char>)>)
    requires
        ps.len() >= 1,
        forall|i: int| 0 <= i < ps.len() ==> #[trigger] well_formed_pair(ps[i].0, ps[i].1),
    ensures
        parse_directory(join_pairs(ps)) == directory_of_pairs(ps),
{
    lemma_split_join_pairs(ps);
    lemma_directory_of_segments_of_pairs(ps);
}

/// In the mapping a pair list denotes, a pair whose trimmed key recurs in no
/// later pair supplies that key's value.
pub proof fn lemma_directory_of_pairs_at(ps: Seq<(Seq<char>, Seq<char>)>, i: int)
    requires
        0 <= i < ps.len(),
        forall|j: int| i < j < ps.len() ==> trim_of(#[trigger] ps[j].0) != trim_of(ps[i].0),
    ensures
        directory_of_pairs(ps).contains_key(trim_of(ps[i].0)),
        directory_of_pairs(ps)[trim_of(ps[i].0)] == trim_of(ps[i].1),
    decreases ps.len(),
{
    if i < ps.len() - 1 {
        lemma_directory_of_pairs_at(ps.drop_last(), i);
    }
}

/// The mapping a pair list denotes has no key beyond the pairs' trimmed keys.
pub proof fn lemma_directory_of_pairs_dom(ps: Seq<(Seq<char>, Seq<char>)>, x: Seq<char>)
    requires
        directory_of_pairs(ps).contains_key(x),
    ensures
        exists|i: int| 0 <= i < ps.len() && trim_of(#[trigger] ps[i].0) == x,
    decreases ps.len(),
{
    if ps.len() > 0 {
        if trim_of(ps.last().0) == x {
            assert(trim_of(ps[ps.len() - 1].0) == x);
        } else {
            lemma_directory_of_pairs_dom(ps.drop_last(), x);
            let i = choose|i: int|
                0 <= i < ps.drop_last().len() && trim_of(#[trigger] ps.drop_last()[i].0) == x;
            assert(trim_of(ps[i].0) == x);
        }
    }
}

} // verus!
