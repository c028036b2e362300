//! The parameter codec: an insertion-ordered string-to-string mapping and the
//! decoder for `key=value&key=value` query and body strings. A pair that does
//! not split on `=` into exactly two parts is skipped; no percent-decoding is
//! performed, values are taken as literal text.

use vstd::prelude::*;
use crate::strutil::{push_char, str_eq};

verus! {

/// A pair of key and value, both as character sequences: the mathematical
/// shape of one entry of a [`StrMap`].
pub type SpecPair = (Seq<char>, Seq<char>);

/// First index of `c` in `s`, if any.
pub open spec fn find_char(s: Seq<char>, c: char) -> Option<int>
    decreases s.len(),
{
    if s.len() == 0 {
        None
    } else if s[0] == c {
        Some(0int)
    } else {
        match find_char(s.skip(1), c) {
            Some(i) => Some(i + 1),
            None => None,
        }
    }
}

pub proof fn lemma_find_char_none(s: Seq<char>, c: char)
    requires
        forall|i: int| 0 <= i < s.len() ==> s[i] != c,
    ensures
        find_char(s, c) is None,
    decreases s.len(),
{
    if s.len() > 0 {
        assert(forall|i: int| 0 <= i < s.skip(1).len() ==> s.skip(1)[i] == s[i + 1]);
        lemma_find_char_none(s.skip(1), c);
    }
}

pub proof fn lemma_find_char_at(s: Seq<char>, c: char, n: int)
    requires
        0 <= n < s.len(),
        s[n] == c,
        forall|i: int| 0 <= i < n ==> s[i] != c,
    ensures
        find_char(s, c) == Some(n),
    decreases n,
{
    if n > 0 {
        assert(forall|i: int| 0 <= i < s.skip(1).len() ==> s.skip(1)[i] == s[i + 1]);
        lemma_find_char_at(s.skip(1), c, n - 1);
    }
}

/// The key/value reading of one `&`-separated segment: defined when the
/// segment holds exactly one `=`, and then the text before it is the key and
/// the text after it the value.
pub open spec fn pair_of(seg: Seq<char>) -> Option<SpecPair> {
    match find_char(seg, '=') {
        None => None,
        Some(i) => {
            if find_char(seg.skip(i + 1), '=') is Some {
                None
            } else {
                Some((seg.take(i), seg.skip(i + 1)))
            }
        },
    }
}

/// The well-formed key/value pairs of a `key=value&key=value` string, in
/// order of appearance; malformed segments are skipped.
pub open spec fn decode_pairs(s: Seq<char>) -> Seq<SpecPair>
    decreases s.len(),
    via decode_pairs_decreases
{
    match find_char(s, '&') {
        None => match pair_of(s) {
            Some(p) => seq![p],
            None => Seq::empty(),
        },
        Some(i) => {
            let head: Seq<SpecPair> = match pair_of(s.take(i)) {
                Some(p) => seq![p],
                None => Seq::empty(),
            };
            head + decode_pairs(s.skip(i + 1))
        },
    }
}

#[via_fn]
proof fn decode_pairs_decreases(s: Seq<char>) {
    lemma_find_char_in_range(s, '&');
}

/// A found separator lies inside the sequence.
pub proof fn lemma_find_char_in_range(s: Seq<char>, c: char)
    ensures
        match find_char(s, c) {
            Some(i) => 0 <= i < s.len() && s[i] == c && (forall|j: int| 0 <= j < i ==> s[j] != c),
            None => forall|j: int| 0 <= j < s.len() ==> s[j] != c,
        },
    decreases s.len(),
{
    if s.len() > 0 && s[0] != c {
        lemma_find_char_in_range(s.skip(1), c);
        assert(forall|j: int| 0 <= j < s.skip(1).len() ==> s.skip(1)[j] == s[j + 1]);
        match find_char(s.skip(1), c) {
            Some(i) => {
                assert forall|j: int| 0 <= j < i + 1 implies s[j] != c by {
                    if j > 0 {
                        assert(s.skip(1)[j - 1] == s[j]);
                    }
                }
            },
            None => {
                assert forall|j: int| 0 <= j < s.len() implies s[j] != c by {
                    if j > 0 {
                        assert(s.skip(1)[j - 1] == s[j]);
                    }
                }
            },
        }
    }
}

/// Entry of `pairs` under key `k`: the first pair with that key.
pub open spec fn map_get(pairs: Seq<SpecPair>, k: Seq<char>) -> Option<Seq<char>>
    decreases pairs.len(),
{
    if pairs.len() == 0 {
        None
    } else if pairs[0].0 == k {
        Some(pairs[0].1)
    } else {
        map_get(pairs.skip(1), k)
    }
}

/// `pairs` with `k` bound to `v`: an existing entry keeps its position and
/// takes the new value, a new key goes to the end.
pub open spec fn insert_pair(pairs: Seq<SpecPair>, k: Seq<char>, v: Seq<char>) -> Seq<SpecPair>
    decreases pairs.len(),
{
    if pairs.len() == 0 {
        seq![(k, v)]
    } else if pairs[0].0 == k {
        seq![(k, v)] + pairs.skip(1)
    } else {
        seq![pairs[0]] + insert_pair(pairs.skip(1), k, v)
    }
}

/// `pairs` with `k` bound to `v` only when `k` is not yet present.
pub open spec fn insert_pair_absent(pairs: Seq<SpecPair>, k: Seq<char>, v: Seq<char>) -> Seq<
    SpecPair,
> {
    if map_get(pairs, k) is Some {
        pairs
    } else {
        pairs.push((k, v))
    }
}

/// The pairs inserted left to right into `m0` with [`insert_pair`].
pub open spec fn build_from(m0: Seq<SpecPair>, pairs: Seq<SpecPair>) -> Seq<SpecPair>
    decreases pairs.len(),
{
    if pairs.len() == 0 {
        m0
    } else {
        build_from(insert_pair(m0, pairs[0].0, pairs[0].1), pairs.skip(1))
    }
}

/// The mapping that decoding a parameter string yields: its well-formed pairs
/// inserted in order into an empty mapping, later values winning.
pub open spec fn decoded_map(s: Seq<char>) -> Seq<SpecPair> {
    build_from(Seq::empty(), decode_pairs(s))
}

/// No two entries share a key.
pub open spec fn distinct_keys(pairs: Seq<SpecPair>) -> bool {
    forall|i: int, j: int| 0 <= i < j < pairs.len() ==> pairs[i].0 != pairs[j].0
}

/// An insertion-ordered mapping from string keys to string values, the result
/// of the parameter codec and the container for request and response headers.
#[derive(Debug)]
pub struct StrMap {
    pairs: Vec<(String, String)>,
}

impl View for StrMap {
    type V = Seq<SpecPair>;

    closed spec fn view(&self) -> Seq<SpecPair> {
        self.pairs@.map_values(|p: (String, String)| (p.0@, p.1@))
    }
}

impl StrMap {
    /// No two entries share a key.
    pub open spec fn wf(&self) -> bool {
        distinct_keys(self@)
    }

    pub fn new() -> (r: StrMap)
        ensures
            r@ == Seq::<SpecPair>::empty(),
            r.wf(),
    {
        let r = StrMap { pairs: Vec::new() };
        assert(r@ =~= Seq::<SpecPair>::empty());
        r
    }

    pub fn len(&self) -> (n: usize)
        ensures
            n == self@.len(),
    {
        self.pairs.len()
    }

    pub fn is_empty(&self) -> (r: bool)
        ensures
            r == (self@.len() == 0),
    {
        self.pairs.len() == 0
    }

    /// The entry at a position, key and value.
    pub fn pair_at(&self, i: usize) -> (r: (&String, &String))
        requires
            i < self@.len(),
        ensures
            r.0@ == self@[i as int].0,
            r.1@ == self@[i as int].1,
    {
        let p = &self.pairs[i];
        (&p.0, &p.1)
    }

    /// The value under `k`, if any.
    pub fn get(&self, k: &str) -> (r: Option<&String>)
        ensures
            match r {
                Some(v) => map_get(self@, k@) == Some(v@),
                None => map_get(self@, k@) is None,
            },
    {
        let n = self.pairs.len();
        let mut i: usize = 0;
        while i < n
            invariant
                n == self@.len(),
                i <= n,
                forall|j: int| 0 <= j < i ==> self@[j].0 != k@,
            decreases n - i,
        {
            if str_eq(self.pairs[i].0.as_str(), k) {
                proof {
                    lemma_map_get_at(self@, k@, i as int);
                }
                return Some(&self.pairs[i].1);
            }
            i += 1;
        }
        proof {
            lemma_map_get_none(self@, k@);
        }
        None
    }

    /// Binds `k` to `v`, overwriting any earlier value under the same key.
    #[verifier::loop_isolation(false)]
    pub fn insert(&mut self, k: String, v: String)
        requires
            old(self).wf(),
        ensures
            final(self)@ == insert_pair(old(self)@, k@, v@),
            final(self).wf(),
    {
        let ghost orig = self@;
        let n = self.pairs.len();
        let mut i: usize = 0;
        while i < n
            invariant
                n == self@.len(),
                i <= n,
                self@ == orig,
                forall|j: int| 0 <= j < i ==> self@[j].0 != k@,
            decreases n - i,
        {
            if str_eq(self.pairs[i].0.as_str(), k.as_str()) {
                proof {
                    lemma_insert_pair_at(self@, k@, v@, i as int);
                }
                self.pairs[i] = (k, v);
                assert(self@ =~= orig.update(i as int, (k@, v@)));
                proof {
                    lemma_insert_keeps_distinct(orig, k@, v@);
                }
                return;
            }
            i += 1;
        }
        proof {
            lemma_insert_pair_missing(self@, k@, v@);
        }
        self.pairs.push((k, v));
        assert(self@ =~= orig.push((k@, v@)));
        proof {
            lemma_insert_keeps_distinct(orig, k@, v@);
        }
    }

    /// Binds `k` to `v` only when `k` is not yet present.
    pub fn insert_if_absent(&mut self, k: String, v: String)
        requires
            old(self).wf(),
        ensures
            final(self)@ == insert_pair_absent(old(self)@, k@, v@),
            final(self).wf(),
    {
        let ghost orig = self@;
        let present = match self.get(k.as_str()) {
            Some(_) => true,
            None => false,
        };
        if !present {
            self.pairs.push((k, v));
            assert(self@ =~= orig.push((k@, v@)));
            proof {
                lemma_map_get_none_all_keys(orig, k@);
                lemma_absent_keeps_distinct(orig, k@, v@);
            }
        }
    }
}

proof fn lemma_map_get_at(pairs: Seq<SpecPair>, k: Seq<char>, n: int)
    requires
        0 <= n < pairs.len(),
        pairs[n].0 == k,
        forall|j: int| 0 <= j < n ==> pairs[j].0 != k,
    ensures
        map_get(pairs, k) == Some(pairs[n].1),
    decreases n,
{
    if n > 0 {
        assert(forall|j: int| 0 <= j < pairs.skip(1).len() ==> pairs.skip(1)[j] == pairs[j + 1]);
        lemma_map_get_at(pairs.skip(1), k, n - 1);
    }
}

proof fn lemma_map_get_none(pairs: Seq<SpecPair>, k: Seq<char>)
    requires
        forall|j: int| 0 <= j < pairs.len() ==> pairs[j].0 != k,
    ensures
        map_get(pairs, k) is None,
    decreases pairs.len(),
{
    if pairs.len() > 0 {
        assert(forall|j: int| 0 <= j < pairs.skip(1).len() ==> pairs.skip(1)[j] == pairs[j + 1]);
        lemma_map_get_none(pairs.skip(1), k);
    }
}

/// `src`'s pairs added in order to `dst`, keys already in `dst` keeping their
/// `dst` value.
pub open spec fn merge_absent(dst: Seq<SpecPair>, src: Seq<SpecPair>) -> Seq<SpecPair>
    decreases src.len(),
{
    if src.len() == 0 {
        dst
    } else {
        merge_absent(insert_pair_absent(dst, src[0].0, src[0].1), src.skip(1))
    }
}

impl StrMap {
    /// Adds every entry of `other` whose key is not yet present; present keys
    /// keep their value.
    #[verifier::loop_isolation(false)]
    pub fn merge_missing_from(&mut self, other: &StrMap)
        requires
            old(self).wf(),
        ensures
            final(self)@ == merge_absent(old(self)@, other@),
            final(self).wf(),
    {
        let n = other.len();
        assert(other@.skip(0) =~= other@);
        let mut i: usize = 0;
        while i < n
            invariant
                i <= n,
                self.wf(),
                merge_absent(self@, other@.skip(i as int)) == merge_absent(old(self)@, other@),
            decreases n - i,
        {
            let (k, v) = other.pair_at(i);
            let ghost before = self@;
            let ghost rest = other@.skip(i as int);
            self.insert_if_absent(k.clone(), v.clone());
            proof {
                assert(rest[0] == other@[i as int]);
                assert(rest.skip(1) =~= other@.skip(i + 1));
                assert(merge_absent(before, rest) == merge_absent(
                    insert_pair_absent(before, rest[0].0, rest[0].1),
                    rest.skip(1),
                ));
            }
            i += 1;
        }
        assert(other@.skip(n as int) =~= Seq::<SpecPair>::empty());
    }
}

/// Decodes a `key=value&key=value` string into a string mapping. Segments
/// between `&` separators that do not hold exactly one `=` are skipped; later
/// pairs win over earlier ones under the same key. The text is taken
/// literally, with no percent-decoding.
#[verifier::loop_isolation(false)]
#[verifier::rlimit(60)]
pub fn decode(s: &str) -> (r: StrMap)
    ensures
        r@ == decoded_map(s@),
        r.wf(),
{
    let len = s.unicode_len();
    let mut m = StrMap::new();
    assert(s@.skip(0) =~= s@);
    let mut start: usize = 0;
    let mut done = false;
    while !done
        invariant
            start <= len,
            m.wf(),
            !done ==> build_from(m@, decode_pairs(s@.skip(start as int))) == decoded_map(s@),
            done ==> m@ == decoded_map(s@),
        decreases len - start + (if done { 0int } else { 1int }),
    {
        let ghost rest = s@.skip(start as int);
        let ghost m_before = m@;
        // The current segment runs to the next `&` or to the end.
        let mut j: usize = start;
        while j < len && s.get_char(j) != '&'
            invariant
                start <= j <= len,
                forall|t: int| start <= t < j ==> s@[t] != '&',
            decreases len - j,
        {
            j += 1;
        }
        proof {
            assert(forall|x: int| 0 <= x < rest.len() ==> rest[x] == s@[start + x]);
            if j < len {
                lemma_find_char_at(rest, '&', j - start);
            } else {
                lemma_find_char_none(rest, '&');
            }
        }
        let ghost seg = s@.subrange(start as int, j as int);
        proof {
            if j < len {
                assert(seg =~= rest.take(j - start));
            } else {
                assert(seg =~= rest);
            }
        }
        // Split the segment on `=`: it is well formed when there is exactly
        // one.
        let mut e: usize = start;
        while e < j && s.get_char(e) != '='
            invariant
                start <= e <= j <= len,
                len == s@.len(),
                forall|t: int| start <= t < e ==> s@[t] != '=',
            decreases j - e,
        {
            e += 1;
        }
        let ghost segpair = pair_of(seg);
        if e == j {
            proof {
                assert(forall|x: int| 0 <= x < seg.len() ==> seg[x] == s@[start + x]);
                lemma_find_char_none(seg, '=');
                assert(segpair is None);
            }
        } else {
            let mut e2: usize = e + 1;
            while e2 < j && s.get_char(e2) != '='
                invariant
                    e < e2 <= j <= len,
                    len == s@.len(),
                    forall|t: int| e < t < e2 ==> s@[t] != '=',
                decreases j - e2,
            {
                e2 += 1;
            }
            proof {
                assert(forall|x: int| 0 <= x < seg.len() ==> seg[x] == s@[start + x]);
                lemma_find_char_at(seg, '=', e - start);
                let tail = seg.skip(e - start + 1);
                assert(tail =~= s@.subrange(e + 1, j as int));
                assert(forall|x: int| 0 <= x < tail.len() ==> tail[x] == s@[e + 1 + x]);
                if e2 < j {
                    lemma_find_char_at(tail, '=', e2 - e - 1);
                } else {
                    lemma_find_char_none(tail, '=');
                }
            }
            if e2 == j {
                let key = s.substring_char(start, e).to_owned();
                let val = s.substring_char(e + 1, j).to_owned();
                proof {
                    assert(segpair == Some((seg.take(e - start), seg.skip(e - start + 1))));
                    assert(key@ =~= seg.take(e - start));
                    assert(val@ =~= seg.skip(e - start + 1));
                }
                m.insert(key, val);
            }
        }
        // One segment of the `decode_pairs` recursion has been consumed.
        proof {
            let ghost head: Seq<SpecPair> = match segpair {
                Some(p) => seq![p],
                None => Seq::empty(),
            };
            match segpair {
                Some(p) => {
                    assert(m@ == insert_pair(m_before, p.0, p.1));
                    assert(head[0] == p);
                    assert(head.skip(1) =~= Seq::<SpecPair>::empty());
                },
                None => {
                    assert(m@ == m_before);
                },
            }
            if j < len {
                let rest2 = s@.skip(j + 1);
                assert(rest.skip((j - start) + 1) =~= rest2);
                assert(decode_pairs(rest) == head + decode_pairs(rest2));
                match segpair {
                    Some(p) => {
                        let whole = head + decode_pairs(rest2);
                        assert(whole[0] == p);
                        assert(whole.skip(1) =~= decode_pairs(rest2));
                        assert(build_from(m_before, whole) == build_from(m@, decode_pairs(rest2)));
                    },
                    None => {
                        assert(head + decode_pairs(rest2) =~= decode_pairs(rest2));
                    },
                }
            } else {
                assert(decode_pairs(rest) == head);
                match segpair {
                    Some(p) => {
                        assert(build_from(m_before, head) == build_from(m@, head.skip(1)));
                        assert(build_from(m@, head.skip(1)) == m@);
                    },
                    None => {},
                }
                assert(m@ == decoded_map(s@));
            }
        }
        if j == len {
            done = true;
        } else {
            start = j + 1;
        }
    }
    m
}

proof fn lemma_map_get_none_all_keys(pairs: Seq<SpecPair>, k: Seq<char>)
    requires
        map_get(pairs, k) is None,
    ensures
        forall|j: int| 0 <= j < pairs.len() ==> pairs[j].0 != k,
    decreases pairs.len(),
{
    if pairs.len() > 0 {
        lemma_map_get_none_all_keys(pairs.skip(1), k);
        assert(forall|j: int| 0 <= j < pairs.skip(1).len() ==> pairs.skip(1)[j] == pairs[j + 1]);
        assert forall|j: int| 0 <= j < pairs.len() implies pairs[j].0 != k by {
            if j > 0 {
                assert(pairs.skip(1)[j - 1] == pairs[j]);
            }
        }
    }
}

proof fn lemma_insert_pair_at(pairs: Seq<SpecPair>, k: Seq<char>, v: Seq<char>, n: int)
    requires
        0 <= n < pairs.len(),
        pairs[n].0 == k,
        forall|j: int| 0 <= j < n ==> pairs[j].0 != k,
    ensures
        insert_pair(pairs, k, v) =~= pairs.update(n, (k, v)),
    decreases n,
{
    if n == 0 {
        assert(insert_pair(pairs, k, v) == seq![(k, v)] + pairs.skip(1));
        assert(seq![(k, v)] + pairs.skip(1) =~= pairs.update(0, (k, v)));
    } else {
        assert(forall|j: int| 0 <= j < pairs.skip(1).len() ==> pairs.skip(1)[j] == pairs[j + 1]);
        lemma_insert_pair_at(pairs.skip(1), k, v, n - 1);
        assert(insert_pair(pairs, k, v) == seq![pairs[0]] + insert_pair(pairs.skip(1), k, v));
        assert(seq![pairs[0]] + pairs.skip(1).update(n - 1, (k, v)) =~= pairs.update(n, (k, v)));
    }
}

proof fn lemma_insert_pair_missing(pairs: Seq<SpecPair>, k: Seq<char>, v: Seq<char>)
    requires
        forall|j: int| 0 <= j < pairs.len() ==> pairs[j].0 != k,
    ensures
        insert_pair(pairs, k, v) =~= pairs.push((k, v)),
    decreases pairs.len(),
{
    if pairs.len() > 0 {
        assert(forall|j: int| 0 <= j < pairs.skip(1).len() ==> pairs.skip(1)[j] == pairs[j + 1]);
        lemma_insert_pair_missing(pairs.skip(1), k, v);
        assert(seq![pairs[0]] + pairs.skip(1).push((k, v)) =~= pairs.push((k, v)));
    }
}

proof fn lemma_insert_keeps_distinct(pairs: Seq<SpecPair>, k: Seq<char>, v: Seq<char>)
    requires
        distinct_keys(pairs),
    ensures
        distinct_keys(insert_pair(pairs, k, v)),
    decreases pairs.len(),
{
    if pairs.len() == 0 {
    } else if pairs[0].0 == k {
        let r = seq![(k, v)] + pairs.skip(1);
        assert(forall|j: int| 1 <= j < r.len() ==> r[j] == pairs[j]);
        assert(distinct_keys(r));
    } else {
        assert(forall|j: int| 0 <= j < pairs.skip(1).len() ==> pairs.skip(1)[j] == pairs[j + 1]);
        lemma_insert_keeps_distinct(pairs.skip(1), k, v);
        let rest = insert_pair(pairs.skip(1), k, v);
        lemma_insert_pair_keys(pairs.skip(1), k, v);
        let r = seq![pairs[0]] + rest;
        assert(forall|j: int| 1 <= j < r.len() ==> r[j] == rest[j - 1]);
        assert(distinct_keys(r));
    }
}

/// Every key of the inserted mapping is an old key or the new one.
proof fn lemma_insert_pair_keys(pairs: Seq<SpecPair>, k: Seq<char>, v: Seq<char>)
    ensures
        forall|j: int|
            0 <= j < insert_pair(pairs, k, v).len() ==> (insert_pair(pairs, k, v)[j].0 == k
                || exists|i: int| 0 <= i < pairs.len() && pairs[i].0 == #[trigger] insert_pair(
                pairs,
                k,
                v,
            )[j].0),
    decreases pairs.len(),
{
    if pairs.len() == 0 {
    } else if pairs[0].0 == k {
        let r = seq![(k, v)] + pairs.skip(1);
        assert(forall|j: int| 1 <= j < r.len() ==> r[j] == pairs[j]);
    } else {
        assert(forall|j: int| 0 <= j < pairs.skip(1).len() ==> pairs.skip(1)[j] == pairs[j + 1]);
        lemma_insert_pair_keys(pairs.skip(1), k, v);
        let rest = insert_pair(pairs.skip(1), k, v);
        let r = seq![pairs[0]] + rest;
        assert(forall|j: int| 1 <= j < r.len() ==> r[j] == rest[j - 1]);
        assert forall|j: int| 1 <= j < r.len() && r[j].0 != k implies exists|i: int|
            0 <= i < pairs.len() && pairs[i].0 == r[j].0 by {
            let i0 = choose|i0: int| 0 <= i0 < pairs.skip(1).len() && pairs.skip(1)[i0].0 == rest[j
                - 1].0;
            assert(pairs[i0 + 1].0 == r[j].0);
        }
    }
}

proof fn lemma_absent_keeps_distinct(pairs: Seq<SpecPair>, k: Seq<char>, v: Seq<char>)
    requires
        distinct_keys(pairs),
        forall|j: int| 0 <= j < pairs.len() ==> pairs[j].0 != k,
    ensures
        distinct_keys(pairs.push((k, v))),
{
}

} // verus!
