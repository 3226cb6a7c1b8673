//! Character posting index.

use vstd::prelude::*;

use crate::text::{char_at, chars_string, seq_contains_char, str_chars};

verus! {

pub struct IndexedWord {
    pub text: String,
    pub seq_id: u32,
}

impl Clone for IndexedWord {
    fn clone(&self) -> (r: Self)
        ensures
            r.text@ == self.text@,
            r.seq_id == self.seq_id,
    {
        IndexedWord { text: self.text.clone(), seq_id: self.seq_id }
    }
}

impl PartialEq for IndexedWord {
    fn eq(&self, other: &Self) -> (r: bool) {
        self.seq_id == other.seq_id
    }
}

impl vstd::std_specs::cmp::PartialEqSpecImpl for IndexedWord {
    open spec fn obeys_eq_spec() -> bool {
        true
    }

    open spec fn eq_spec(&self, other: &IndexedWord) -> bool {
        self.seq_id == other.seq_id
    }
}

struct CharPostings {
    c: char,
    words: Vec<IndexedWord>,
}

pub struct RegexSearchIndex {
    data: Vec<CharPostings>,
}

pub open spec fn words_view(ws: Seq<IndexedWord>) -> Seq<(Seq<char>, u32)> {
    ws.map_values(|w: IndexedWord| (w.text@, w.seq_id))
}

pub open spec fn has_seq(p: Seq<(Seq<char>, u32)>, sid: u32) -> bool {
    exists|k: int| 0 <= k < p.len() && p[k].1 == sid
}

pub open spec fn postings_of(
    es: Seq<(char, Seq<(Seq<char>, u32)>)>,
    c: char,
) -> Seq<(Seq<char>, u32)>
    decreases es.len(),
{
    if es.len() == 0 {
        Seq::empty()
    } else if es.last().0 == c {
        es.last().1
    } else {
        postings_of(es.drop_last(), c)
    }
}

impl RegexSearchIndex {
    pub closed spec fn entries(&self) -> Seq<(char, Seq<(Seq<char>, u32)>)> {
        self.data@.map_values(
            |e: CharPostings| (e.c, e.words@.map_values(|w: IndexedWord| (w.text@, w.seq_id))),
        )
    }

    pub open spec fn wf(&self) -> bool {
        &&& forall|i: int, j: int|
            0 <= i < j < self.entries().len() ==> self.entries()[i].0 != self.entries()[j].0
        &&& forall|i: int|
            0 <= i < self.entries().len() ==> (#[trigger] self.entries()[i]).1.len() > 0
        &&& forall|i: int, k: int, l: int|
            0 <= i < self.entries().len() && 0 <= k < l < self.entries()[i].1.len()
                ==> self.entries()[i].1[k].1 != self.entries()[i].1[l].1
        &&& forall|i: int, k: int|
            0 <= i < self.entries().len() && 0 <= k < self.entries()[i].1.len()
                ==> seq_contains_char(
                (#[trigger] self.entries()[i].1[k]).0,
                self.entries()[i].0,
            )
    }

    pub fn new() -> (r: RegexSearchIndex)
        ensures
            r.wf(),
            r.entries() == Seq::<(char, Seq<(Seq<char>, u32)>)>::empty(),
    {
        let r = RegexSearchIndex { data: Vec::new() };
        proof {
            assert(r.entries() =~= Seq::<(char, Seq<(Seq<char>, u32)>)>::empty());
        }
        r
    }

    fn lookup(&self, c: char) -> (r: Option<usize>)
        requires
            self.wf(),
        ensures
            match r {
                Some(i) => i < self.entries().len() && self.entries()[i as int].0 == c
                    && postings_of(self.entries(), c) == self.entries()[i as int].1,
                None => postings_of(self.entries(), c) == Seq::<(Seq<char>, u32)>::empty(),
            },
    {
        let n = self.data.len();
        let mut i: usize = 0;
        while i < n
            invariant
                i <= n,
                n == self.entries().len(),
                n == self.data@.len(),
                self.wf(),
                forall|j: int| 0 <= j < i ==> self.entries()[j].0 != c,
            decreases n - i,
        {
            if self.data[i].c == c {
                proof {
                    assert(self.entries()[i as int].0 == c);
                    lemma_postings_found(self.entries(), i as int, c);
                }
                return Some(i);
            }
            i = i + 1;
        }
        proof {
            lemma_postings_absent(self.entries(), c);
        }
        None
    }

    fn entry_has_seq(&self, e: usize, sid: u32) -> (r: bool)
        requires
            e < self.entries().len(),
            self.entries().len() == self.data_len_spec(),
        ensures
            r == has_seq(self.entries()[e as int].1, sid),
    {
        let ws = &self.data[e].words;
        let m = ws.len();
        let mut k: usize = 0;
        proof {
            assert(self.entries()[e as int].1 == words_view(ws@));
        }
        while k < m
            invariant
                k <= m,
                m == ws@.len(),
                words_view(ws@) == self.entries()[e as int].1,
                m == self.entries()[e as int].1.len(),
                forall|j: int| 0 <= j < k ==> self.entries()[e as int].1[j].1 != sid,
            decreases m - k,
        {
            if ws[k].seq_id == sid {
                proof {
                    assert(self.entries()[e as int].1[k as int].1 == sid);
                }
                return true;
            }
            k = k + 1;
        }
        false
    }

    pub closed spec fn data_len_spec(&self) -> nat {
        self.data@.len()
    }



    /// Adds a new term to the index under every character of its text; the
    /// `seq_id` is supposed to be used to resolve `term`. A record already
    /// posted under a character keeps its first posting there: dedup is by
    /// sequence id alone.
    #[verifier::rlimit(60)]
    pub fn add_term(&mut self, term: &str, seq_id: u32)
        requires
            old(self).wf(),
        ensures
            final(self).wf(),
            forall|c: char|
                postings_of(final(self).entries(), c) == posting_added(
                    postings_of(old(self).entries(), c),
                    term@,
                    seq_id,
                    c,
                ),
    {
        let chars = str_chars(term);
        let n = chars.len();
        let mut p: usize = 0;
        proof {
            assert(term@.subrange(0, 0) =~= Seq::<char>::empty());
        }
        while p < n
            invariant
                p <= n,
                n == chars@.len(),
                chars@ == term@,
                self.wf(),
                forall|c: char|
                    postings_of(self.entries(), c) == (if seq_contains_char(
                        term@.subrange(0, p as int),
                        c,
                    ) && !has_seq(postings_of(old(self).entries(), c), seq_id) {
                        postings_of(old(self).entries(), c).push((term@, seq_id))
                    } else {
                        postings_of(old(self).entries(), c)
                    }),
            decreases n - p,
        {
            let c = char_at(&chars, p);
            let ghost pre = self.entries();
            let ghost oldp = postings_of(old(self).entries(), c);
            let found = self.lookup(c);
            match found {
                Some(ei) => {
                    proof {
                        assert(self.entries().len() == self.data_len_spec());
                    }
                    let present = self.entry_has_seq(ei, seq_id);
                    if !present {
                        let w_text = chars_string(&chars);
                        self.data[ei].words.push(IndexedWord { text: w_text, seq_id });
                        proof {
                            let ghost newp = pre[ei as int].1.push((term@, seq_id));
                            assert(self.entries() =~~= pre.update(ei as int, (c, newp)));
                            assert forall|c2: char|
                                postings_of(self.entries(), c2) == (if c2 == c {
                                    newp
                                } else {
                                    postings_of(pre, c2)
                                }) by {
                                lemma_postings_update(pre, ei as int, (c, newp), c2);
                            }
                            assert(postings_of(pre, c) == pre[ei as int].1);
                            assert forall|i: int, k: int|
                                0 <= i < self.entries().len() && 0 <= k
                                    < self.entries()[i].1.len() implies seq_contains_char(
                                (#[trigger] self.entries()[i].1[k]).0,
                                self.entries()[i].0,
                            ) by {
                                if i == ei as int && k == self.entries()[i].1.len() - 1 {
                                    assert(term@[p as int] == c);
                                    assert(seq_contains_char(term@, c));
                                } else {
                                    assert(self.entries()[i].1[k] == pre[i].1[k]);
                                    assert(seq_contains_char(pre[i].1[k].0, pre[i].0));
                                }
                            }
                        }
                    }
                    proof {
                        if present {
                            assert(has_seq(postings_of(pre, c), seq_id));
                        } else {
                            assert(!has_seq(postings_of(pre, c), seq_id));
                        }
                    }
            proof {
                assert forall|c2: char|
                    postings_of(self.entries(), c2) == (if seq_contains_char(
                        term@.subrange(0, p + 1),
                        c2,
                    ) && !has_seq(postings_of(old(self).entries(), c2), seq_id) {
                        postings_of(old(self).entries(), c2).push((term@, seq_id))
                    } else {
                        postings_of(old(self).entries(), c2)
                    }) by {
                    assert(term@.subrange(0, p + 1)[p as int] == term@[p as int]);
                    if seq_contains_char(term@.subrange(0, p + 1), c2) {
                        let w = choose|w: int|
                            0 <= w < term@.subrange(0, p + 1).len() && (#[trigger] term@.subrange(
                                0,
                                p + 1,
                            )[w]) == c2;
                        if w < p {
                            assert(term@.subrange(0, p as int)[w] == c2);
                            assert(seq_contains_char(term@.subrange(0, p as int), c2));
                        } else {
                            assert(c2 == c);
                        }
                    }
                    if seq_contains_char(term@.subrange(0, p as int), c2) {
                        let w = choose|w: int|
                            0 <= w < term@.subrange(0, p as int).len() && (#[trigger] term@.subrange(
                                0,
                                p as int,
                            )[w]) == c2;
                        assert(term@.subrange(0, p + 1)[w] == c2);
                        assert(seq_contains_char(term@.subrange(0, p + 1), c2));
                    }
                    if c2 == c {
                        assert(oldp.push((term@, seq_id))[oldp.len() as int].1 == seq_id);
                        assert(has_seq(oldp.push((term@, seq_id)), seq_id));
                        if !seq_contains_char(term@.subrange(0, p as int), c) {
                            if has_seq(oldp, seq_id) {
                                assert(postings_of(pre, c) == oldp);
                            }
                        }
                    }
                }
            }
                },
                None => {
                    let w_text = chars_string(&chars);
                    let mut words: Vec<IndexedWord> = Vec::new();
                    words.push(IndexedWord { text: w_text, seq_id });
                    proof {
                        assert(pre.len() == self.data@.len());
                        assert(words@.len() == 1);
                        assert(words@[0].text@ == term@);
                        assert(words@[0].seq_id == seq_id);
                    }
                    let ghost pdata = self.data@;
                    self.data.push(CharPostings { c, words });
                    proof {
                        let ghost newp = seq![(term@, seq_id)];
                        assert(self.data@.len() == pdata.len() + 1);
                        assert(self.data@.len() == pre.len() + 1);
                        assert(self.entries().len() == pre.len() + 1);
                        assert(forall|i: int|
                            0 <= i < pre.len() ==> (#[trigger] self.entries()[i]) == pre[i]);
                        assert(self.entries()[pre.len() as int].0 == c);
                        assert(self.entries()[pre.len() as int].1 =~~= newp);
                        assert(self.entries() =~~= pre.push((c, newp)));
                        assert forall|i: int| 0 <= i < pre.len() implies (#[trigger] pre[i]).0
                            != c by {
                            if pre[i].0 == c {
                                lemma_postings_found(pre, i, c);
                            }
                        }
                        assert forall|c2: char|
                            postings_of(self.entries(), c2) == (if c2 == c {
                                newp
                            } else {
                                postings_of(pre, c2)
                            }) by {
                            assert(self.entries().drop_last() =~= pre);
                            assert(self.entries().last() == (c, newp));
                        }
                        assert(term@[p as int] == c);
                        assert(seq_contains_char(term@, c));
                        assert forall|i: int, k: int|
                            0 <= i < self.entries().len() && 0 <= k
                                < self.entries()[i].1.len() implies seq_contains_char(
                            (#[trigger] self.entries()[i].1[k]).0,
                            self.entries()[i].0,
                        ) by {
                            if i < pre.len() {
                                assert(self.entries()[i] == pre[i]);
                                assert(seq_contains_char(pre[i].1[k].0, pre[i].0));
                            } else {
                                assert(self.entries()[i].1[k] == (term@, seq_id));
                            }
                        }
                    }
            proof {
                assert forall|c2: char|
                    postings_of(self.entries(), c2) == (if seq_contains_char(
                        term@.subrange(0, p + 1),
                        c2,
                    ) && !has_seq(postings_of(old(self).entries(), c2), seq_id) {
                        postings_of(old(self).entries(), c2).push((term@, seq_id))
                    } else {
                        postings_of(old(self).entries(), c2)
                    }) by {
                    assert(term@.subrange(0, p + 1)[p as int] == term@[p as int]);
                    if seq_contains_char(term@.subrange(0, p + 1), c2) {
                        let w = choose|w: int|
                            0 <= w < term@.subrange(0, p + 1).len() && (#[trigger] term@.subrange(
                                0,
                                p + 1,
                            )[w]) == c2;
                        if w < p {
                            assert(term@.subrange(0, p as int)[w] == c2);
                            assert(seq_contains_char(term@.subrange(0, p as int), c2));
                        } else {
                            assert(c2 == c);
                        }
                    }
                    if seq_contains_char(term@.subrange(0, p as int), c2) {
                        let w = choose|w: int|
                            0 <= w < term@.subrange(0, p as int).len() && (#[trigger] term@.subrange(
                                0,
                                p as int,
                            )[w]) == c2;
                        assert(term@.subrange(0, p + 1)[w] == c2);
                        assert(seq_contains_char(term@.subrange(0, p + 1), c2));
                    }
                    if c2 == c {
                        assert(oldp.push((term@, seq_id))[oldp.len() as int].1 == seq_id);
                        assert(has_seq(oldp.push((term@, seq_id)), seq_id));
                        if !seq_contains_char(term@.subrange(0, p as int), c) {
                            if has_seq(oldp, seq_id) {
                                assert(postings_of(pre, c) == oldp);
                            }
                        }
                    }
                }
            }
                },
            }
            p = p + 1;
        }
        proof {
            assert(term@.subrange(0, n as int) =~= term@);
        }
    }
}


pub open spec fn posting_added(
    p: Seq<(Seq<char>, u32)>,
    t: Seq<char>,
    sid: u32,
    c: char,
) -> Seq<(Seq<char>, u32)> {
    if seq_contains_char(t, c) && !has_seq(p, sid) {
        p.push((t, sid))
    } else {
        p
    }
}

/// The position of the first character, from `i` on, whose posting list is
/// non-empty; the length of the list when there is none.
pub open spec fn seed_of(es: Seq<(char, Seq<(Seq<char>, u32)>)>, chars: Seq<char>, i: int) -> int
    decreases chars.len() - i,
        when 0 <= i <= chars.len()
{
    if i >= chars.len() {
        chars.len() as int
    } else if postings_of(es, chars[i]).len() > 0 {
        i
    } else {
        seed_of(es, chars, i + 1)
    }
}

/// A record survives the narrowing exactly when every queried character with
/// a non-empty posting list posts it.
pub open spec fn keep_w(es: Seq<(char, Seq<(Seq<char>, u32)>)>, chars: Seq<char>, sid: u32) -> bool {
    forall|j: int|
        0 <= j < chars.len() && postings_of(es, chars[j]).len() > 0 ==> has_seq(
            #[trigger] postings_of(es, chars[j]),
            sid,
        )
}

/// What `find` returns: empty when no queried character has postings; else
/// the first non-empty posting list, narrowed to the records every other
/// queried character with postings also posts, in stored order.
pub open spec fn find_spec(es: Seq<(char, Seq<(Seq<char>, u32)>)>, chars: Seq<char>) -> Seq<
    (Seq<char>, u32),
> {
    let s = seed_of(es, chars, 0);
    if s >= chars.len() {
        Seq::empty()
    } else {
        postings_of(es, chars[s]).filter(|w: (Seq<char>, u32)| keep_w(es, chars, w.1))
    }
}

/// Characterizes the seed position.
proof fn lemma_seed_from(es: Seq<(char, Seq<(Seq<char>, u32)>)>, chars: Seq<char>, i: int, s: int)
    requires
        0 <= i <= s <= chars.len(),
        forall|j: int| i <= j < s ==> postings_of(es, chars[j]).len() == 0,
        s < chars.len() ==> postings_of(es, chars[s]).len() > 0,
    ensures
        s < chars.len() ==> seed_of(es, chars, i) == s,
        s == chars.len() ==> seed_of(es, chars, i) == chars.len(),
    decreases s - i,
{
    if i < s {
        lemma_seed_from(es, chars, i + 1, s);
    }
}

impl RegexSearchIndex {
    /// Finds the seed: the first queried character that has postings.
    fn find_seed(&self, chars: &Vec<char>) -> (r: Option<(usize, usize)>)
        requires
            self.wf(),
        ensures
            match r {
                Some(p) => p.0 < chars@.len() && p.1 < self.entries().len() && self.entries()[
                    p.1 as int
                ].0 == chars@[p.0 as int] && postings_of(self.entries(), chars@[p.0 as int])
                    == self.entries()[p.1 as int].1 && seed_of(self.entries(), chars@, 0)
                    == p.0 as int,
                None => seed_of(self.entries(), chars@, 0) == chars@.len(),
            },
    {
        let n = chars.len();
        let mut i: usize = 0;
        while i < n
            invariant
                i <= n,
                n == chars@.len(),
                self.wf(),
                forall|j: int| 0 <= j < i ==> postings_of(self.entries(), chars@[j]).len() == 0,
            decreases n - i,
        {
            let c = char_at(chars, i);
            match self.lookup(c) {
                Some(ei) => {
                    proof {
                        assert(self.entries()[ei as int].1.len() > 0);
                        lemma_seed_from(self.entries(), chars@, 0, i as int);
                    }
                    return Some((i, ei));
                },
                None => {
                },
            }
            i = i + 1;
        }
        proof {
            lemma_seed_from(self.entries(), chars@, 0, n as int);
        }
        None
    }

    /// Tests whether every queried character with postings posts the record.
    fn keep_word(&self, chars: &Vec<char>, sid: u32) -> (r: bool)
        requires
            self.wf(),
        ensures
            r == keep_w(self.entries(), chars@, sid),
    {
        let n = chars.len();
        let mut j: usize = 0;
        while j < n
            invariant
                j <= n,
                n == chars@.len(),
                self.wf(),
                forall|jj: int|
                    0 <= jj < j && postings_of(self.entries(), chars@[jj]).len() > 0 ==> has_seq(
                        #[trigger] postings_of(self.entries(), chars@[jj]),
                        sid,
                    ),
            decreases n - j,
        {
            let c = char_at(chars, j);
            match self.lookup(c) {
                Some(ei) => {
                    proof {
                        assert(self.entries().len() == self.data_len_spec());
                    }
                    if !self.entry_has_seq(ei, sid) {
                        return false;
                    }
                },
                None => {
                },
            }
            j = j + 1;
        }
        true
    }

    /// Get all indexed words using characters in `chars`: the empty list for
    /// an empty query; otherwise the posting set of the first character that
    /// has postings, narrowed to the records posted under every queried
    /// character that has postings. A pre-filter only — callers still apply
    /// the real pattern match to the returned candidates.
    pub fn find(&self, chars: &Vec<char>) -> (r: Vec<IndexedWord>)
        requires
            self.wf(),
        ensures
            words_view(r@) == find_spec(self.entries(), chars@),
    {
        let mut out: Vec<IndexedWord> = Vec::new();
        match self.find_seed(chars) {
            None => {
                proof {
                    assert(words_view(out@) =~= find_spec(self.entries(), chars@));
                }
                out
            },
            Some((si, ei)) => {
                let ghost plist = self.entries()[ei as int].1;
                let m = self.data[ei].words.len();
                proof {
                    assert(self.entries()[ei as int].1 == words_view(self.data@[ei as int].words@));
                    reveal(Seq::filter);
                    assert(plist.subrange(0, 0) =~= Seq::<(Seq<char>, u32)>::empty());
                    assert(words_view(out@) =~= plist.subrange(0, 0).filter(
                        |w: (Seq<char>, u32)| keep_w(self.entries(), chars@, w.1),
                    ));
                }
                let mut k: usize = 0;
                while k < m
                    invariant
                        k <= m,
                        ei < self.entries().len(),
                        ei < self.data@.len(),
                        self.wf(),
                        plist == self.entries()[ei as int].1,
                        plist == words_view(self.data@[ei as int].words@),
                        m == plist.len(),
                        m == self.data@[ei as int].words@.len(),
                        words_view(out@) == plist.subrange(0, k as int).filter(
                            |w: (Seq<char>, u32)| keep_w(self.entries(), chars@, w.1),
                        ),
                    decreases m - k,
                {
                    let sid = self.data[ei].words[k].seq_id;
                    proof {
                        assert(plist[k as int] == (
                            self.data@[ei as int].words@[k as int].text@,
                            sid,
                        ));
                    }
                    let ghost pre_out = words_view(out@);
                    if self.keep_word(chars, sid) {
                        let w = self.data[ei].words[k].clone();
                        out.push(w);
                        proof {
                            assert(words_view(out@) =~= pre_out.push(plist[k as int]));
                        }
                    }
                    proof {
                        reveal(Seq::filter);
                        assert(plist.subrange(0, k + 1).drop_last() =~= plist.subrange(
                            0,
                            k as int,
                        ));
                        assert(plist.subrange(0, k + 1).last() == plist[k as int]);
                        assert(words_view(out@) =~= plist.subrange(0, k + 1).filter(
                            |w: (Seq<char>, u32)| keep_w(self.entries(), chars@, w.1),
                        ));
                    }
                    k = k + 1;
                }
                proof {
                    assert(plist.subrange(0, m as int) =~= plist);
                    assert(seed_of(self.entries(), chars@, 0) < chars@.len());
                    assert(find_spec(self.entries(), chars@) == plist.filter(
                        |w: (Seq<char>, u32)| keep_w(self.entries(), chars@, w.1),
                    ));
                }
                out
            },
        }
    }
}

/// Law: the narrowing is order-independent. Queries over the same set of
/// characters keep exactly the same records, whatever the character order —
/// only the seeding, and with it the stored-order listing, may differ.
pub proof fn lemma_find_order_independent(
    es: Seq<(char, Seq<(Seq<char>, u32)>)>,
    chars1: Seq<char>,
    chars2: Seq<char>,
    sid: u32,
)
    requires
        chars1.to_set() == chars2.to_set(),
    ensures
        has_seq(find_spec(es, chars1), sid) <==> has_seq(find_spec(es, chars2), sid),
{
    lemma_find_membership(es, chars1, sid);
    lemma_find_membership(es, chars2, sid);
    assert forall|c: char| chars1.contains(c) implies chars2.contains(c) by {
        assert(chars1.to_set().contains(c));
    }
    assert forall|c: char| chars2.contains(c) implies chars1.contains(c) by {
        assert(chars2.to_set().contains(c));
    }
    if has_seq(find_spec(es, chars1), sid) {
        let j = choose|j: int|
            0 <= j < chars1.len() && postings_of(es, #[trigger] chars1[j]).len() > 0 && has_seq(
                postings_of(es, chars1[j]),
                sid,
            );
        assert(chars1.contains(chars1[j]));
        assert(chars2.contains(chars1[j]));
        let j2 = choose|j2: int| 0 <= j2 < chars2.len() && chars2[j2] == chars1[j];
        assert forall|jj: int|
            0 <= jj < chars2.len() && postings_of(es, chars2[jj]).len() > 0 implies has_seq(
            #[trigger] postings_of(es, chars2[jj]),
            sid,
        ) by {
            assert(chars2.contains(chars2[jj]));
            assert(chars1.contains(chars2[jj]));
            let jj1 = choose|jj1: int| 0 <= jj1 < chars1.len() && chars1[jj1] == chars2[jj];
            assert(has_seq(postings_of(es, chars1[jj1]), sid));
        }
    }
    if has_seq(find_spec(es, chars2), sid) {
        let j = choose|j: int|
            0 <= j < chars2.len() && postings_of(es, #[trigger] chars2[j]).len() > 0 && has_seq(
                postings_of(es, chars2[j]),
                sid,
            );
        assert(chars2.contains(chars2[j]));
        assert(chars1.contains(chars2[j]));
        let j2 = choose|j2: int| 0 <= j2 < chars1.len() && chars1[j2] == chars2[j];
        assert forall|jj: int|
            0 <= jj < chars1.len() && postings_of(es, chars1[jj]).len() > 0 implies has_seq(
            #[trigger] postings_of(es, chars1[jj]),
            sid,
        ) by {
            assert(chars1.contains(chars1[jj]));
            assert(chars2.contains(chars1[jj]));
            let jj1 = choose|jj1: int| 0 <= jj1 < chars2.len() && chars2[jj1] == chars1[jj];
            assert(has_seq(postings_of(es, chars2[jj1]), sid));
        }
    }
}

/// A record is in the narrowed result exactly when some queried character
/// with postings posts it and so does every other queried character with
/// postings.
pub proof fn lemma_find_membership(
    es: Seq<(char, Seq<(Seq<char>, u32)>)>,
    chars: Seq<char>,
    sid: u32,
)
    ensures
        has_seq(find_spec(es, chars), sid) <==> ((exists|j: int|
            0 <= j < chars.len() && postings_of(es, #[trigger] chars[j]).len() > 0 && has_seq(
                postings_of(es, chars[j]),
                sid,
            )) && keep_w(es, chars, sid)),
{
    reveal(Seq::filter);
    let s = seed_of(es, chars, 0);
    lemma_seed_bounds(es, chars, 0);
    if s < chars.len() {
        let plist = postings_of(es, chars[s]);
        let filtered = plist.filter(|w: (Seq<char>, u32)| keep_w(es, chars, w.1));
        if has_seq(filtered, sid) {
            let k = choose|k: int| 0 <= k < filtered.len() && filtered[k].1 == sid;
            assert(filtered.contains(filtered[k]));
            lemma_filter_member_local(
                plist,
                |w: (Seq<char>, u32)| keep_w(es, chars, w.1),
                filtered[k],
            );
            let k2 = choose|k2: int| 0 <= k2 < plist.len() && plist[k2] == filtered[k];
            assert(has_seq(plist, sid));
        }
        if ((exists|j: int|
            0 <= j < chars.len() && postings_of(es, #[trigger] chars[j]).len() > 0 && has_seq(
                postings_of(es, chars[j]),
                sid,
            )) && keep_w(es, chars, sid)) {
            assert(has_seq(plist, sid));
            let k = choose|k: int| 0 <= k < plist.len() && plist[k].1 == sid;
            lemma_filter_keeps(plist, |w: (Seq<char>, u32)| keep_w(es, chars, w.1), k);
            let f = plist[k];
            assert(filtered.contains(f));
            let k2 = choose|k2: int| 0 <= k2 < filtered.len() && filtered[k2] == f;
            assert(has_seq(filtered, sid));
        }
    } else {
        assert forall|j: int| 0 <= j < chars.len() implies postings_of(
            es,
            #[trigger] chars[j],
        ).len() == 0 by {
            lemma_seed_none(es, chars, 0, j);
        }
    }
}

/// The seed position stays within bounds and points at non-empty postings.
proof fn lemma_seed_bounds(es: Seq<(char, Seq<(Seq<char>, u32)>)>, chars: Seq<char>, i: int)
    requires
        0 <= i <= chars.len(),
    ensures
        i <= seed_of(es, chars, i) <= chars.len(),
        seed_of(es, chars, i) < chars.len() ==> postings_of(
            es,
            chars[seed_of(es, chars, i)],
        ).len() > 0,
    decreases chars.len() - i,
{
    if i < chars.len() && postings_of(es, chars[i]).len() == 0 {
        lemma_seed_bounds(es, chars, i + 1);
    }
}

/// When no seed is found, every queried character's postings are empty.
proof fn lemma_seed_none(es: Seq<(char, Seq<(Seq<char>, u32)>)>, chars: Seq<char>, i: int, j: int)
    requires
        0 <= i <= j < chars.len(),
        seed_of(es, chars, i) == chars.len(),
    ensures
        postings_of(es, chars[j]).len() == 0,
    decreases j - i,
{
    if i < j {
        lemma_seed_none(es, chars, i + 1, j);
    }
}

/// An element of a filtered posting list is an element of the original.
proof fn lemma_filter_member_local(
    s: Seq<(Seq<char>, u32)>,
    p: spec_fn((Seq<char>, u32)) -> bool,
    x: (Seq<char>, u32),
)
    requires
        s.filter(p).contains(x),
    ensures
        s.contains(x),
        p(x),
    decreases s.len(),
{
    reveal(Seq::filter);
    if s.len() > 0 {
        if s.drop_last().filter(p).contains(x) {
            lemma_filter_member_local(s.drop_last(), p, x);
            let i = choose|i: int| 0 <= i < s.drop_last().len() && s.drop_last()[i] == x;
            assert(s[i] == x);
        } else {
            assert(x == s.last());
            assert(s[s.len() - 1] == x);
        }
    }
}

/// An element that satisfies the predicate survives the filter.
proof fn lemma_filter_keeps(s: Seq<(Seq<char>, u32)>, p: spec_fn((Seq<char>, u32)) -> bool, k: int)
    requires
        0 <= k < s.len(),
        p(s[k]),
    ensures
        s.filter(p).contains(s[k]),
    decreases s.len(),
{
    reveal(Seq::filter);
    if k == s.len() - 1 {
        assert(s.drop_last().filter(p).push(s.last()).last() == s[k]);
    } else {
        lemma_filter_keeps(s.drop_last(), p, k);
        let f = s.drop_last().filter(p);
        let i = choose|i: int| 0 <= i < f.len() && f[i] == s[k];
        if p(s.last()) {
            assert(f.push(s.last())[i] == s[k]);
        }
    }
}

proof fn lemma_postings_found(es: Seq<(char, Seq<(Seq<char>, u32)>)>, i: int, c: char)
    requires
        0 <= i < es.len(),
        es[i].0 == c,
        forall|a: int, b: int| 0 <= a < b < es.len() ==> es[a].0 != es[b].0,
    ensures
        postings_of(es, c) == es[i].1,
    decreases es.len(),
{
    if i == es.len() - 1 {
    } else {
        assert(es.last().0 != c);
        lemma_postings_found(es.drop_last(), i, c);
    }
}

proof fn lemma_postings_absent(es: Seq<(char, Seq<(Seq<char>, u32)>)>, c: char)
    requires
        forall|j: int| 0 <= j < es.len() ==> (#[trigger] es[j]).0 != c,
    ensures
        postings_of(es, c) == Seq::<(Seq<char>, u32)>::empty(),
    decreases es.len(),
{
    if es.len() > 0 {
        lemma_postings_absent(es.drop_last(), c);
    }
}

proof fn lemma_postings_update(
    es: Seq<(char, Seq<(Seq<char>, u32)>)>,
    i: int,
    e: (char, Seq<(Seq<char>, u32)>),
    c: char,
)
    requires
        0 <= i < es.len(),
        es[i].0 == e.0,
        forall|a: int, b: int| 0 <= a < b < es.len() ==> es[a].0 != es[b].0,
    ensures
        postings_of(es.update(i, e), c) == if c == e.0 {
            e.1
        } else {
            postings_of(es, c)
        },
    decreases es.len(),
{
    let es2 = es.update(i, e);
    if i == es.len() - 1 {
        assert(es2.last() == e);
        assert(es2.drop_last() =~= es.drop_last());
        if c != e.0 {
            assert(postings_of(es2, c) == postings_of(es.drop_last(), c));
        }
    } else {
        assert(es2.last() == es.last());
        assert(es2.drop_last() =~= es.drop_last().update(i, e));
        lemma_postings_update(es.drop_last(), i, e, c);
        if c == e.0 {
            assert(es.last().0 != c);
        }
    }
}

} // verus!
