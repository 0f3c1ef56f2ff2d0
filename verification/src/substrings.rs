//! A string cut into tokens that can be read, searched and replaced one by
//! one, and put back together with the whitespace between them.
use vstd::prelude::*;
use indexmap::IndexMap;
use crate::text::{is_ws, is_blank, concat, chars_of, string_from, is_whitespace, blank};
use crate::regex_ops::{regex_match_result, word_pattern, regex_is_match};
use crate::index_map::{index_map_entries, index_map_new, index_map_insert, index_map_into_entries};

verus! {

/// The tokens of a string. `substring_chars` holds every piece of the
/// string in order (tokens and the whitespace between them); `substrings`
/// holds the tokens alone.
#[derive(Clone)]
pub struct Substrings {
    pub substring_chars: Vec<String>,
    pub substrings: Vec<String>,
}

/// The abstract value of a [`Substrings`].
pub struct SubstringsView {
    pub chars: Seq<Seq<char>>,
    pub subs: Seq<Seq<char>>,
}

/// The characters of each string of `v`.
pub open spec fn strs(v: Seq<String>) -> Seq<Seq<char>> {
    v.map_values(|s: String| s@)
}

impl View for Substrings {
    type V = SubstringsView;

    open spec fn view(&self) -> SubstringsView {
        SubstringsView { chars: strs(self.substring_chars@), subs: strs(self.substrings@) }
    }
}

/// What the scan of a string has built so far: the tokens, the pieces,
/// and the token being read.
pub struct ScanState {
    pub subs: Seq<Seq<char>>,
    pub chars: Seq<Seq<char>>,
    pub cur: Seq<char>,
}

/// `st` with the token being read, if there is one, closed.
pub open spec fn flush(st: ScanState) -> ScanState {
    if st.cur.len() > 0 {
        ScanState { subs: st.subs.push(st.cur), chars: st.chars.push(st.cur), cur: Seq::empty() }
    } else {
        ScanState { cur: Seq::empty(), ..st }
    }
}

/// One step of the scan: `c` is the character read, `word` whether it is a
/// word character (or an apostrophe), and `next` the following character
/// with the same flag, if there is one.
///
/// A word character extends the token, which closes before whitespace. A
/// character that is neither word nor whitespace joins the token when a
/// word character follows, and is a token of its own otherwise. Whitespace
/// is a piece of its own. At the last character a word character closes the
/// token (and is lost if no token was open); a final whitespace is dropped.
pub open spec fn scan_step(st: ScanState, c: char, word: bool, next: Option<(char, bool)>) -> ScanState {
    match next {
        Some((nc, nword)) => {
            if !is_ws(c) {
                if word {
                    let cur = st.cur.push(c);
                    if is_ws(nc) {
                        ScanState { subs: st.subs.push(cur), chars: st.chars.push(cur), cur: Seq::empty() }
                    } else {
                        ScanState { cur: cur, ..st }
                    }
                } else if !nword {
                    let f = flush(st);
                    ScanState { subs: f.subs.push(seq![c]), chars: f.chars.push(seq![c]), cur: Seq::empty() }
                } else {
                    ScanState { cur: st.cur.push(c), ..st }
                }
            } else {
                ScanState { chars: st.chars.push(seq![c]), ..st }
            }
        },
        None => {
            if !is_ws(c) {
                if word {
                    if st.cur.len() > 0 {
                        let cur = st.cur.push(c);
                        ScanState { subs: st.subs.push(cur), chars: st.chars.push(cur), cur: cur }
                    } else {
                        ScanState { subs: st.subs.push(st.cur), ..st }
                    }
                } else {
                    let f = flush(st);
                    ScanState { subs: f.subs.push(seq![c]), chars: f.chars.push(seq![c]), cur: Seq::empty() }
                }
            } else {
                st
            }
        },
    }
}

/// The character after position `i` with its flag, if there is one.
pub open spec fn next_of(cs: Seq<char>, word: Seq<bool>, i: int) -> Option<(char, bool)> {
    if i + 1 < cs.len() {
        Some((cs[i + 1], word[i + 1]))
    } else {
        None
    }
}

/// The scan after reading the first `k` characters of `cs`.
pub open spec fn scan(cs: Seq<char>, word: Seq<bool>, k: nat) -> ScanState
    decreases k,
{
    if k == 0 {
        ScanState { subs: Seq::empty(), chars: Seq::empty(), cur: Seq::empty() }
    } else {
        scan_step(scan(cs, word, (k - 1) as nat), cs[k - 1], word[k - 1], next_of(cs, word, k - 1))
    }
}

/// The tokens of `cs`, where `word[i]` tells whether `cs[i]` is a word
/// character or an apostrophe.
pub open spec fn tokenize(cs: Seq<char>, word: Seq<bool>) -> SubstringsView {
    let st = scan(cs, word, cs.len());
    SubstringsView { chars: st.chars, subs: st.subs }
}

/// How many of the first `k` pieces are not blank.
pub open spec fn nonblank_before(chars: Seq<Seq<char>>, k: int) -> int
    decreases k,
{
    if k <= 0 {
        0
    } else {
        nonblank_before(chars, k - 1) + if is_blank(chars[k - 1]) { 0int } else { 1int }
    }
}

/// The position among the pieces of the `n`-th piece that is not blank
/// (counting from 0), looking from position `i` on, where `n` more
/// non-blank pieces are still to be passed.
pub open spec fn nth_nonblank_from(chars: Seq<Seq<char>>, i: int, n: int) -> Option<int>
    decreases chars.len() - i,
{
    if i < 0 || i >= chars.len() {
        None
    } else if !is_blank(chars[i]) {
        if n == 0 {
            Some(i)
        } else {
            nth_nonblank_from(chars, i + 1, n - 1)
        }
    } else {
        nth_nonblank_from(chars, i + 1, n)
    }
}

/// The position among the pieces of the `n`-th non-blank piece.
pub open spec fn nth_nonblank(chars: Seq<Seq<char>>, n: int) -> Option<int> {
    nth_nonblank_from(chars, 0, n)
}

/// `v` after `set(n, value)`: the `n`-th non-blank piece and the `n`-th
/// token both become `value`; nothing changes where there is no such piece.
pub open spec fn set_spec(v: SubstringsView, n: int, value: Seq<char>) -> SubstringsView {
    match nth_nonblank(v.chars, n) {
        Some(k) => SubstringsView { chars: v.chars.update(k, value), subs: v.subs.update(n, value) },
        None => v,
    }
}

/// `set` may be called with `n` on `v`: where the `n`-th non-blank piece
/// exists, so does the `n`-th token.
pub open spec fn can_set(v: SubstringsView, n: int) -> bool {
    nth_nonblank(v.chars, n) is Some ==> 0 <= n < v.subs.len()
}

/// `v` after `set(i, outs[i])` for each `i` below `k`, in order.
pub open spec fn set_each(v: SubstringsView, outs: Seq<Seq<char>>, k: nat) -> SubstringsView
    decreases k,
{
    if k == 0 {
        v
    } else {
        set_spec(set_each(v, outs, (k - 1) as nat), k - 1, outs[k - 1])
    }
}

/// `v` after `set(k, value)` for each entry `(k, value)` of `entries`, in order.
pub open spec fn set_entries(v: SubstringsView, entries: Seq<(usize, Seq<char>)>) -> SubstringsView
    decreases entries.len(),
{
    if entries.len() == 0 {
        v
    } else {
        let e = entries.last();
        set_spec(set_entries(v, entries.drop_last()), e.0 as int, e.1)
    }
}

/// Every entry of `entries` may be set in turn, starting from `v`.
pub open spec fn can_set_entries(v: SubstringsView, entries: Seq<(usize, Seq<char>)>) -> bool
    decreases entries.len(),
{
    if entries.len() == 0 {
        true
    } else {
        can_set_entries(v, entries.drop_last()) && can_set(
            set_entries(v, entries.drop_last()),
            entries.last().0 as int,
        )
    }
}

/// The positions of the tokens equal to `search`, in increasing order.
pub open spec fn positions_of(subs: Seq<Seq<char>>, search: Seq<char>) -> Seq<usize>
    decreases subs.len(),
{
    if subs.len() == 0 {
        Seq::empty()
    } else {
        let p = positions_of(subs.drop_last(), search);
        if subs.last() == search {
            p.push((subs.len() - 1) as usize)
        } else {
            p
        }
    }
}

/// The entries `(positions[j], values[j])` for each `j`.
pub open spec fn zip_entries(positions: Seq<usize>, values: Seq<Seq<char>>) -> Seq<(usize, Seq<char>)> {
    Seq::new(positions.len(), |j: int| (positions[j], values[j]))
}

/// Appends `s` to `v`.
fn push_string(v: &mut Vec<String>, s: String)
    ensures
        strs(final(v)@) == strs(old(v)@).push(s@),
{
    v.push(s);
    proof {
        assert(strs(v@) =~= strs(old(v)@).push(s@));
    }
}

proof fn lemma_set_keeps_lengths(v: SubstringsView, n: int, value: Seq<char>)
    requires
        can_set(v, n),
    ensures
        set_spec(v, n, value).chars.len() == v.chars.len(),
        set_spec(v, n, value).subs.len() == v.subs.len(),
{
    lemma_nth_nonblank_in_range(v.chars, 0, n);
}

proof fn lemma_nth_nonblank_in_range(chars: Seq<Seq<char>>, i: int, n: int)
    ensures
        nth_nonblank_from(chars, i, n) matches Some(k) ==> i <= k < chars.len() && !is_blank(
            chars[k],
        ),
    decreases chars.len() - i,
{
    if i < 0 || i >= chars.len() {
    } else if !is_blank(chars[i]) {
        if n != 0 {
            lemma_nth_nonblank_in_range(chars, i + 1, n - 1);
        }
    } else {
        lemma_nth_nonblank_in_range(chars, i + 1, n);
    }
}

proof fn lemma_set_each_lengths(v: SubstringsView, outs: Seq<Seq<char>>, k: nat)
    requires
        k <= v.subs.len(),
    ensures
        set_each(v, outs, k).chars.len() == v.chars.len(),
        set_each(v, outs, k).subs.len() == v.subs.len(),
    decreases k,
{
    if k > 0 {
        lemma_set_each_lengths(v, outs, (k - 1) as nat);
        let w = set_each(v, outs, (k - 1) as nat);
        lemma_set_keeps_lengths(w, k - 1, outs[k - 1]);
    }
}

proof fn lemma_positions_bounded(subs: Seq<Seq<char>>, search: Seq<char>)
    requires
        subs.len() <= usize::MAX,
    ensures
        forall|j: int|
            0 <= j < positions_of(subs, search).len() ==> (#[trigger] positions_of(subs, search)[j])
                < subs.len(),
        forall|a: int, b: int|
            0 <= a < b < positions_of(subs, search).len() ==> positions_of(subs, search)[a]
                < positions_of(subs, search)[b],
    decreases subs.len(),
{
    if subs.len() > 0 {
        lemma_positions_bounded(subs.drop_last(), search);
        let p = positions_of(subs.drop_last(), search);
        let q = positions_of(subs, search);
        assert(forall|j: int| 0 <= j < p.len() ==> (#[trigger] p[j]) < subs.len() - 1);
        assert forall|a: int, b: int| 0 <= a < b < q.len() implies q[a] < q[b] by {
            if subs.last() == search {
                if b < p.len() {
                    assert(q[a] == p[a] && q[b] == p[b]);
                    assert(p[a] < p[b]);
                } else {
                    assert(q[a] == p[a]);
                    assert(p[a] < subs.len() - 1);
                    assert(q[b] == subs.len() - 1);
                }
            } else {
                assert(q == p);
                assert(p[a] < p[b]);
            }
        }
    }
}

/// Whether each character of `s` is a word character: where the pattern
/// `\w|'` matches it.
pub open spec fn word_flags(s: Seq<char>) -> Seq<bool> {
    Seq::new(s.len(), |i: int| regex_match_result(word_pattern(), seq![s[i]])->0)
}

/// The text does not end in a word character right after whitespace, nor
/// in a word character alone.
pub open spec fn ends_cleanly(cs: Seq<char>, word: Seq<bool>) -> bool {
    cs.len() == 0 || !word[cs.len() - 1] || (cs.len() >= 2 && !is_ws(cs[cs.len() - 2]))
}

impl Substrings {
    /// Cuts `string` into tokens. A character counts as a word character
    /// where the pattern `\w|'` matches it.
    pub fn new(string: &str) -> (r: Substrings)
        ensures
            forall|i: int|
                0 <= i < string@.len() ==> (#[trigger] regex_match_result(
                    word_pattern(),
                    seq![string@[i]],
                )) is Some,
            r@ == tokenize(string@, word_flags(string@)),
            ends_cleanly(string@, word_flags(string@)) ==> r@.subs == nonblank_pieces(r@.chars) && forall|m: int|
                0 <= m < r@.chars.len() ==> well_formed_piece(#[trigger] r@.chars[m]),
            ends_cleanly(string@, word_flags(string@)) && (string@.len() == 0 || !is_ws(string@.last()))
                ==> concat(r@.chars) == string@,
    {
        let cs = chars_of(string);
        let pattern = "\\w|'";
        proof {
            reveal_strlit("\\w|'");
            assert(pattern@ =~= word_pattern());
        }
        let mut word: Vec<bool> = Vec::new();
        let mut i: usize = 0;
        while i < cs.len()
            invariant
                pattern@ == word_pattern(),
                cs@ == string@,
                i <= cs.len(),
                word@.len() == i,
                forall|j: int|
                    0 <= j < i ==> (#[trigger] regex_match_result(word_pattern(), seq![cs@[j]]))
                        == Some(word@[j]),
                forall|j: int| 0 <= j < i && is_ws(cs@[j]) ==> !(#[trigger] word@[j]),
            decreases cs.len() - i,
        {
            let one = string_from(&vec![cs[i]]);
            let m = regex_is_match(pattern, one.as_str());
            proof {
                assert(one@ =~= seq![cs@[i as int]]);
            }
            let w = match m {
                Some(b) => b,
                None => false,
            };
            word.push(w);
            i = i + 1;
        }
        proof {
            assert(word@ =~= word_flags(string@));
            assert(word_flags_not_ws(string@, word@));
            if ends_cleanly(string@, word@) {
                lemma_last_step(string@, word@);
            }
        }
        Self::from_flags(&cs, &word)
    }

    /// Cuts the characters `cs` into tokens, where `word[i]` tells whether
    /// `cs[i]` is a word character (or an apostrophe).
    pub fn from_flags(cs: &Vec<char>, word: &Vec<bool>) -> (r: Substrings)
        requires
            cs.len() == word.len(),
        ensures
            r@ == tokenize(cs@, word@),
    {
        let mut subs: Vec<String> = Vec::new();
        let mut pieces: Vec<String> = Vec::new();
        let mut cur: Vec<char> = Vec::new();
        let n = cs.len();
        let mut i: usize = 0;
        while i < n
            invariant
                n == cs.len(),
                cs.len() == word.len(),
                i <= n,
                strs(subs@) == scan(cs@, word@, i as nat).subs,
                strs(pieces@) == scan(cs@, word@, i as nat).chars,
                cur@ == scan(cs@, word@, i as nat).cur,
            decreases n - i,
        {
            let ghost st = scan(cs@, word@, i as nat);
            let ghost s0 = subs@;
            let ghost p0 = pieces@;
            let c = cs[i];
            let w = word[i];
            if i + 1 < n {
                let nc = cs[i + 1];
                let nw = word[i + 1];
                if !is_whitespace(c) {
                    if w {
                        cur.push(c);
                        if is_whitespace(nc) {
                            push_string(&mut pieces, string_from(&cur));
                            push_string(&mut subs, string_from(&cur));
                            cur = Vec::new();
                        }
                    } else if !nw {
                        if cur.len() > 0 {
                            push_string(&mut pieces, string_from(&cur));
                            push_string(&mut subs, string_from(&cur));
                        }
                        let single = vec![c];
                        proof { assert(single@ =~= seq![c]); }
                        push_string(&mut pieces, string_from(&single));
                        push_string(&mut subs, string_from(&single));
                        cur = Vec::new();
                    } else {
                        cur.push(c);
                    }
                } else {
                    let single = vec![c];
                        proof { assert(single@ =~= seq![c]); }
                    push_string(&mut pieces, string_from(&single));
                }
            } else {
                if !is_whitespace(c) {
                    if w {
                        if cur.len() > 0 {
                            cur.push(c);
                            push_string(&mut pieces, string_from(&cur));
                        }
                        push_string(&mut subs, string_from(&cur));
                    } else {
                        if cur.len() > 0 {
                            push_string(&mut pieces, string_from(&cur));
                            push_string(&mut subs, string_from(&cur));
                        }
                        let single = vec![c];
                        proof { assert(single@ =~= seq![c]); }
                        push_string(&mut pieces, string_from(&single));
                        push_string(&mut subs, string_from(&single));
                        cur = Vec::new();
                    }
                }
            }
            proof {
                let nxt = scan(cs@, word@, (i + 1) as nat);
                assert(nxt == scan_step(st, cs@[i as int], word@[i as int], next_of(cs@, word@, i as int)));
                assert(strs(subs@) =~= nxt.subs);
                assert(strs(pieces@) =~= nxt.chars);
                assert(cur@ =~= nxt.cur);
            }
            i = i + 1;
        }
        Substrings { substring_chars: pieces, substrings: subs }
    }

    /// Replaces the `index`-th token, and the piece that holds it, with
    /// `value`. The piece is found by counting the non-blank pieces; where
    /// there are not that many, nothing changes.
    pub fn set(&mut self, index: usize, value: &str) -> (r: &mut Self)
        requires
            can_set(old(self)@, index as int),
        ensures
            *final(self) == *final(r),
            r@ == set_spec(old(self)@, index as int, value@),
    {
        let ghost v = self@;
        let mut k: usize = 0;
        let mut count: usize = 0;
        let mut found: Option<usize> = None;
        while k < self.substring_chars.len()
            invariant
                self@ == v,
                k <= self.substring_chars.len(),
                count <= k,
                found is None ==> nth_nonblank(v.chars, index as int) == nth_nonblank_from(
                    v.chars,
                    k as int,
                    index - count,
                ),
                found is None ==> count <= index,
                found matches Some(f) ==> nth_nonblank(v.chars, index as int) == Some(f as int),
            decreases self.substring_chars.len() - k,
        {
            if found.is_none() {
                let piece = chars_of(self.substring_chars[k].as_str());
                proof {
                    assert(piece@ == v.chars[k as int]);
                }
                if !blank(&piece) {
                    if count == index {
                        found = Some(k);
                    }
                    count = count + 1;
                }
            }
            k = k + 1;
        }
        proof {
            if found is None {
                assert(nth_nonblank_from(v.chars, k as int, index - count) is None);
            }
        }
        match found {
            Some(f) => {
                proof {
                    lemma_nth_nonblank_in_range(v.chars, 0, index as int);
                }
                self.substring_chars.set(f, value.to_owned());
                self.substrings.set(index, value.to_owned());
                proof {
                    assert(self@.chars =~= v.chars.update(f as int, value@));
                    assert(self@.subs =~= v.subs.update(index as int, value@));
                }
            },
            None => {},
        }
        self
    }

    /// Replaces every token with what `update_func` makes of it, token by
    /// token in order, each through [`Substrings::set`].
    pub fn update<F>(&mut self, update_func: F) -> (r: &mut Self) where F: Fn(String) -> String
        requires
            forall|s: String| call_requires(update_func, (s,)),
        ensures
            *final(self) == *final(r),
            exists|outs: Seq<String>|
                {
                    &&& outs.len() == old(self)@.subs.len()
                    &&& forall|i: int|
                        0 <= i < outs.len() ==> call_ensures(
                            update_func,
                            (old(self).substrings@[i],),
                            #[trigger] outs[i],
                        )
                    &&& r@ == set_each(old(self)@, strs(outs), outs.len())
                },
    {
        let ghost v = self@;
        let tokens = self.substrings.clone();
        let mut outs: Vec<String> = Vec::new();
        let mut i: usize = 0;
        proof {
            assert(tokens@ =~= old(self).substrings@) by {
                assert(forall|j: int| 0 <= j < tokens@.len() ==> tokens@[j] == old(self).substrings@[j]);
            }
        }
        while i < tokens.len()
            invariant
                forall|s: String| call_requires(update_func, (s,)),
                tokens@ == old(self).substrings@,
                v == old(self)@,
                v.subs.len() == tokens.len(),
                i <= tokens.len(),
                outs@.len() == i,
                forall|j: int|
                    0 <= j < i ==> call_ensures(update_func, (tokens@[j],), #[trigger] outs@[j]),
                self@ == set_each(v, strs(outs@), i as nat),
            decreases tokens.len() - i,
        {
            let out = update_func(tokens[i].clone());
            proof {
                lemma_set_each_lengths(v, strs(outs@), i as nat);
            }
            self.set(i, out.as_str());
            let ghost old_outs = outs@;
            outs.push(out);
            proof {
                assert(strs(outs@).take(i as int) =~= strs(old_outs));
                assert forall|j: nat| j <= i implies set_each(v, strs(outs@), j) == set_each(
                    v,
                    strs(old_outs),
                    j,
                ) by {
                    lemma_set_each_prefix(v, strs(outs@), strs(old_outs), j);
                }
                assert(strs(outs@)[i as int] == out@);
            }
            i = i + 1;
        }
        proof {
            let witness = outs@;
            assert(witness.len() == old(self)@.subs.len());
            assert(forall|j: int|
                0 <= j < witness.len() ==> call_ensures(
                    update_func,
                    (old(self).substrings@[j],),
                    #[trigger] witness[j],
                ));
        }
        self
    }

    /// The `index`-th token.
    pub fn get(&self, index: usize) -> (r: String)
        requires
            index < self@.subs.len(),
        ensures
            r@ == self@.subs[index as int],
    {
        self.substrings[index].clone()
    }

    /// The positions of the tokens equal to `search`, in increasing order.
    pub fn find(&self, search: &str) -> (r: Vec<usize>)
        ensures
            r@ == positions_of(self@.subs, search@),
    {
        let target = search.to_owned();
        let mut results: Vec<usize> = Vec::new();
        let mut i: usize = 0;
        while i < self.substrings.len()
            invariant
                target@ == search@,
                i <= self.substrings.len(),
                results@ == positions_of(self@.subs.take(i as int), search@),
            decreases self.substrings.len() - i,
        {
            proof {
                assert(self@.subs.take(i + 1).drop_last() =~= self@.subs.take(i as int));
                assert(self@.subs.take(i + 1).last() == self.substrings@[i as int]@);
            }
            if self.substrings[i] == target {
                results.push(i);
            }
            i = i + 1;
        }
        proof {
            assert(self@.subs.take(self.substrings.len() as int) =~= self@.subs);
        }
        results
    }

    /// Sets each entry `(index, value)` of `map`, in the map's order.
    pub fn replace(&mut self, map: IndexMap<usize, String>) -> (r: &mut Self)
        requires
            can_set_entries(old(self)@, index_map_entries(map)),
        ensures
            *final(self) == *final(r),
            r@ == set_entries(old(self)@, index_map_entries(map)),
    {
        let ghost v = self@;
        let ghost es = index_map_entries(map);
        let entries = index_map_into_entries(map);
        let mut i: usize = 0;
        while i < entries.len()
            invariant
                es == entries@.map_values(|p: (usize, String)| (p.0, p.1@)),
                can_set_entries(v, es),
                i <= entries.len(),
                self@ == set_entries(v, es.take(i as int)),
            decreases entries.len() - i,
        {
            proof {
                assert(es.take(i + 1).drop_last() =~= es.take(i as int));
                lemma_can_set_entries_prefix(v, es, i + 1);
                assert(es.take(i + 1).last() == es[i as int]);
            }
            let (k, value) = &entries[i];
            self.set(*k, value.as_str());
            i = i + 1;
        }
        proof {
            assert(es.take(entries.len() as int) =~= es);
        }
        self
    }

    /// Replaces the tokens equal to `search`, in order, with the strings of
    /// `replace`: the first such token with `replace[0]`, and so on.
    pub fn find_and_replace(&mut self, search: &str, replace: Vec<String>) -> (r: &mut Self)
        requires
            positions_of(old(self)@.subs, search@).len() <= replace.len(),
        ensures
            *final(self) == *final(r),
            r@ == set_entries(
                old(self)@,
                zip_entries(positions_of(old(self)@.subs, search@), strs(replace@)),
            ),
    {
        let ghost v = self@;
        let positions = self.find(search);
        let ghost target = zip_entries(positions@, strs(replace@));
        let mut map = index_map_new();
        let mut j: usize = 0;
        let ntok = self.substrings.len();
        proof {
            assert(v.subs.len() == ntok);
            lemma_positions_bounded(v.subs, search@);
        }
        while j < positions.len()
            invariant
                positions@ == positions_of(v.subs, search@),
                positions.len() <= replace.len(),
                j <= positions.len(),
                target == zip_entries(positions@, strs(replace@)),
                index_map_entries(map) == target.take(j as int),
                forall|a: int| 0 <= a < positions@.len() ==> (#[trigger] positions@[a]) < v.subs.len(),
                forall|a: int, b: int| 0 <= a < b < positions@.len() ==> positions@[a] < positions@[b],
            decreases positions.len() - j,
        {
            let ghost before = index_map_entries(map);
            proof {
                assert forall|a: int| 0 <= a < before.len() implies before[a].0 != positions@[j as int] by {
                    assert(before[a] == target[a]);
                }
            }
            index_map_insert(&mut map, positions[j], replace[j].clone());
            proof {
                assert(!(exists|a: int| 0 <= a < before.len() && before[a].0 == positions@[j as int]));
                assert(target.take(j + 1) =~= before.push((positions@[j as int], replace@[j as int]@)));
            }
            j = j + 1;
        }
        proof {
            assert(target.take(positions.len() as int) =~= target);
            lemma_distinct_positions_can_set(v, target);
        }
        self.replace(map);
        self
    }

    /// The pieces put back together, whitespace included.
    pub fn to_string(&self) -> (r: String)
        ensures
            r@ == concat(self@.chars),
    {
        let mut r = String::new();
        let mut i: usize = 0;
        while i < self.substring_chars.len()
            invariant
                i <= self.substring_chars.len(),
                r@ == concat(self@.chars.take(i as int)),
            decreases self.substring_chars.len() - i,
        {
            proof {
                assert(self@.chars.take(i + 1).drop_last() =~= self@.chars.take(i as int));
            }
            r.append(self.substring_chars[i].as_str());
            i = i + 1;
        }
        proof {
            assert(self@.chars.take(self.substring_chars.len() as int) =~= self@.chars);
        }
        r
    }
}

proof fn lemma_set_each_prefix(v: SubstringsView, a: Seq<Seq<char>>, b: Seq<Seq<char>>, k: nat)
    requires
        k <= b.len(),
        b.len() <= a.len(),
        forall|j: int| 0 <= j < b.len() ==> a[j] == b[j],
    ensures
        set_each(v, a, k) == set_each(v, b, k),
    decreases k,
{
    if k > 0 {
        lemma_set_each_prefix(v, a, b, (k - 1) as nat);
    }
}

proof fn lemma_can_set_entries_prefix(v: SubstringsView, es: Seq<(usize, Seq<char>)>, k: int)
    requires
        0 <= k <= es.len(),
        can_set_entries(v, es),
    ensures
        can_set_entries(v, es.take(k)),
    decreases es.len() - k,
{
    if k < es.len() {
        assert(es.drop_last().take(k) =~= es.take(k));
        lemma_can_set_entries_prefix(v, es.drop_last(), k);
    } else {
        assert(es.take(k) =~= es);
    }
}

/// Setting at positions below the number of tokens is always possible.
pub proof fn lemma_distinct_positions_can_set(v: SubstringsView, es: Seq<(usize, Seq<char>)>)
    requires
        forall|a: int| 0 <= a < es.len() ==> (#[trigger] es[a]).0 < v.subs.len(),
    ensures
        can_set_entries(v, es),
        set_entries(v, es).subs.len() == v.subs.len(),
    decreases es.len(),
{
    if es.len() > 0 {
        let d = es.drop_last();
        assert forall|a: int| 0 <= a < d.len() implies (#[trigger] d[a]).0 < v.subs.len() by {
            assert(d[a] == es[a]);
        }
        lemma_distinct_positions_can_set(v, d);
        let w = set_entries(v, d);
        let e = es.last();
        assert(es[es.len() - 1] == e);
        lemma_set_keeps_lengths(w, e.0 as int, e.1);
    }
}

} // verus!

verus! {

/// Setting a token and reading it back: after `set(n, value)`, where the
/// `n`-th non-blank piece exists, `get(n)` gives `value`.
pub proof fn law_set_then_get(v: SubstringsView, n: int, value: Seq<char>)
    requires
        can_set(v, n),
        nth_nonblank(v.chars, n) is Some,
    ensures
        set_spec(v, n, value).subs[n] == value,
        set_spec(v, n, value).chars[nth_nonblank(v.chars, n)->0] == value,
{
    lemma_nth_nonblank_in_range(v.chars, 0, n);
}

/// Setting a token touches nothing else: the other tokens and pieces
/// stay, and so do their numbers.
pub proof fn law_set_keeps_others(v: SubstringsView, n: int, value: Seq<char>)
    requires
        can_set(v, n),
    ensures
        set_spec(v, n, value).subs.len() == v.subs.len(),
        set_spec(v, n, value).chars.len() == v.chars.len(),
        forall|m: int| 0 <= m < v.subs.len() && m != n ==> set_spec(v, n, value).subs[m] == v.subs[m],
        forall|k: int|
            0 <= k < v.chars.len() && Some(k) != nth_nonblank(v.chars, n) ==> set_spec(
                v,
                n,
                value,
            ).chars[k] == v.chars[k],
{
    lemma_set_keeps_lengths(v, n, value);
    lemma_nth_nonblank_in_range(v.chars, 0, n);
    match nth_nonblank(v.chars, n) {
        Some(pos) => {
            assert forall|k: int|
                0 <= k < v.chars.len() && Some(k) != nth_nonblank(v.chars, n) implies set_spec(
                v,
                n,
                value,
            ).chars[k] == v.chars[k] by {
                assert(k != pos);
                assert(set_spec(v, n, value).chars == v.chars.update(pos, value));
                assert(v.chars.update(pos, value)[k] == v.chars[k]);
            }
        },
        None => {},
    }
}

/// Searching finds exactly the tokens equal to the text searched for.
pub proof fn law_find_exact(subs: Seq<Seq<char>>, search: Seq<char>)
    requires
        subs.len() <= usize::MAX,
    ensures
        forall|j: int|
            0 <= j < positions_of(subs, search).len() ==> subs[positions_of(subs, search)[j] as int]
                == search,
        forall|i: int|
            0 <= i < subs.len() && subs[i] == search ==> positions_of(subs, search).contains(
                i as usize,
            ),
    decreases subs.len(),
{
    lemma_positions_bounded(subs, search);
    if subs.len() > 0 {
        let d = subs.drop_last();
        law_find_exact(d, search);
        let p = positions_of(d, search);
        let q = positions_of(subs, search);
        lemma_positions_bounded(d, search);
        assert forall|j: int| 0 <= j < q.len() implies subs[q[j] as int] == search by {
            if j < p.len() {
                assert(q[j] == p[j]);
                assert(d[p[j] as int] == subs[p[j] as int]);
            }
        }
        assert forall|i: int| 0 <= i < subs.len() && subs[i] == search implies q.contains(
            i as usize,
        ) by {
            if i < subs.len() - 1 {
                assert(d[i] == subs[i]);
                let w = choose|w: int| 0 <= w < p.len() && p[w] == i as usize;
                assert(q[w] == p[w]);
            } else {
                assert(q[q.len() - 1] == i as usize);
            }
        }
    }
}

} // verus!

verus! {

impl IntoIterator for Substrings {
    type Item = String;

    type IntoIter = std::vec::IntoIter<String>;

    /// The tokens, in order.
    fn into_iter(self) -> (r: std::vec::IntoIter<String>)
        ensures
            r == vstd::std_specs::vec::spec_into_iter(self.substrings),
    {
        self.substrings.into_iter()
    }
}

} // verus!

verus! {

/// The entries of a map built by inserting `pairs[0]`, ..., `pairs[n - 1]`
/// in order into an empty map.
pub open spec fn inserted(pairs: Seq<(usize, Seq<char>)>, n: nat) -> Seq<(usize, Seq<char>)>
    decreases n,
{
    if n == 0 || n > pairs.len() {
        Seq::empty()
    } else {
        crate::index_map::entries_insert(inserted(pairs, (n - 1) as nat), pairs[n - 1].0, pairs[n - 1].1)
    }
}

/// The positions and texts of `pairs`.
pub open spec fn pair_views(pairs: Seq<(usize, String)>) -> Seq<(usize, Seq<char>)> {
    pairs.map_values(|p: (usize, String)| (p.0, p.1@))
}

/// A map for [`Substrings::replace`]: each pair inserted in order, so a
/// position given twice keeps its first place and its last text.
pub fn replacement_map(pairs: &Vec<(usize, String)>) -> (m: IndexMap<usize, String>)
    ensures
        index_map_entries(m) == inserted(pair_views(pairs@), pairs@.len()),
{
    let mut m = index_map_new();
    let mut i: usize = 0;
    while i < pairs.len()
        invariant
            i <= pairs.len(),
            index_map_entries(m) == inserted(pair_views(pairs@), i as nat),
        decreases pairs.len() - i,
    {
        index_map_insert(&mut m, pairs[i].0, pairs[i].1.clone());
        i = i + 1;
    }
    m
}

proof fn lemma_inserted_keys(pairs: Seq<(usize, Seq<char>)>, n: nat)
    requires
        n <= pairs.len(),
    ensures
        forall|a: int|
            0 <= a < inserted(pairs, n).len() ==> exists|b: int| 0 <= b < n && (#[trigger] inserted(pairs, n)[a]).0 == pairs[b].0,
    decreases n,
{
    if n > 0 {
        let p = (n - 1) as nat;
        lemma_inserted_keys(pairs, p);
        let e = inserted(pairs, p);
        let k = pairs[n - 1].0;
        let r = inserted(pairs, n);
        assert(r == crate::index_map::entries_insert(e, k, pairs[n - 1].1));
        crate::index_map::lemma_entries_insert_keys(e, k, pairs[n - 1].1);
        assert forall|a: int| 0 <= a < r.len() implies exists|b: int| 0 <= b < n && (#[trigger] r[a]).0 == pairs[b].0 by {
            if a < e.len() && r[a] == e[a] {
                let b = choose|b: int| 0 <= b < p && (#[trigger] e[a]).0 == pairs[b].0;
                assert(r[a].0 == pairs[b].0);
            } else {
                assert(r[a].0 == pairs[n - 1].0);
            }
        }
    }
}

/// A map built by [`replacement_map`] from positions below the number of
/// tokens may be handed to [`Substrings::replace`].
pub proof fn lemma_replacement_map_can_set(v: SubstringsView, pairs: Seq<(usize, Seq<char>)>)
    requires
        forall|b: int| 0 <= b < pairs.len() ==> (#[trigger] pairs[b]).0 < v.subs.len(),
    ensures
        can_set_entries(v, inserted(pairs, pairs.len())),
{
    lemma_inserted_keys(pairs, pairs.len());
    let es = inserted(pairs, pairs.len());
    assert forall|a: int| 0 <= a < es.len() implies (#[trigger] es[a]).0 < v.subs.len() by {
        let b = choose|b: int| 0 <= b < pairs.len() && (#[trigger] es[a]).0 == pairs[b].0;
        assert(pairs[b].0 < v.subs.len());
    }
    lemma_distinct_positions_can_set(v, es);
}

} // verus!

verus! {

/// The pieces of `chars` that are not blank, in order.
pub open spec fn nonblank_pieces(chars: Seq<Seq<char>>) -> Seq<Seq<char>>
    decreases chars.len(),
{
    if chars.len() == 0 {
        Seq::empty()
    } else {
        let p = nonblank_pieces(chars.drop_last());
        if is_blank(chars.last()) {
            p
        } else {
            p.push(chars.last())
        }
    }
}

/// `s` holds no whitespace.
pub open spec fn no_ws(s: Seq<char>) -> bool {
    forall|j: int| 0 <= j < s.len() ==> !is_ws(#[trigger] s[j])
}

/// A piece is one whitespace character, or a non-empty run without
/// whitespace.
pub open spec fn well_formed_piece(p: Seq<char>) -> bool {
    (p.len() == 1 && is_ws(p[0])) || (p.len() > 0 && no_ws(p))
}

/// No character flagged as a word character is whitespace (as for `\w|'`).
pub open spec fn word_flags_not_ws(cs: Seq<char>, word: Seq<bool>) -> bool {
    forall|i: int| 0 <= i < cs.len() && #[trigger] word[i] ==> !is_ws(cs[i])
}

/// What holds of the scan after its first `k` characters, as long as a
/// character follows each one read.
pub open spec fn scan_inv(cs: Seq<char>, word: Seq<bool>, k: int) -> bool {
    let st = scan(cs, word, k as nat);
    &&& st.subs == nonblank_pieces(st.chars)
    &&& forall|m: int| 0 <= m < st.chars.len() ==> well_formed_piece(#[trigger] st.chars[m])
    &&& concat(st.chars) + st.cur == cs.take(k)
    &&& no_ws(st.cur)
    &&& st.cur.len() > 0 ==> k < cs.len() && !is_ws(cs[k])
}

proof fn lemma_push_piece(chars: Seq<Seq<char>>, p: Seq<char>)
    requires
        forall|m: int| 0 <= m < chars.len() ==> well_formed_piece(#[trigger] chars[m]),
        well_formed_piece(p),
    ensures
        forall|m: int| 0 <= m < chars.push(p).len() ==> well_formed_piece(#[trigger] chars.push(p)[m]),
        concat(chars.push(p)) == concat(chars) + p,
        nonblank_pieces(chars.push(p)) == if is_blank(p) {
            nonblank_pieces(chars)
        } else {
            nonblank_pieces(chars).push(p)
        },
        no_ws(p) ==> !is_blank(p),
{
    assert(chars.push(p).drop_last() =~= chars);
    assert forall|m: int| 0 <= m < chars.push(p).len() implies well_formed_piece(#[trigger] chars.push(p)[m]) by {
        if m < chars.len() {
            assert(chars.push(p)[m] == chars[m]);
        }
    }
    if no_ws(p) {
        assert(!is_ws(p[0]));
    }
}

proof fn lemma_scan_inv(cs: Seq<char>, word: Seq<bool>, k: int)
    requires
        0 <= k < cs.len(),
        word.len() == cs.len(),
        word_flags_not_ws(cs, word),
    ensures
        scan_inv(cs, word, k),
    decreases k,
{
    if k > 0 {
        let i = k - 1;
        lemma_scan_inv(cs, word, i);
        let st = scan(cs, word, i as nat);
        let c = cs[i];
        let nc = cs[i + 1];
        let nword = word[i + 1];
        let st2 = scan(cs, word, k as nat);
        assert(st2 == scan_step(st, c, word[i], Some((nc, nword))));
        assert(cs.take(k) =~= cs.take(i) + seq![c]);
        if !is_ws(c) {
            if word[i] {
                let cur = st.cur.push(c);
                assert(no_ws(cur)) by {
                    assert forall|j: int| 0 <= j < cur.len() implies !is_ws(#[trigger] cur[j]) by {
                        if j < st.cur.len() {
                            assert(cur[j] == st.cur[j]);
                        }
                    }
                }
                assert(concat(st.chars) + cur =~= concat(st.chars) + st.cur + seq![c]);
                if is_ws(nc) {
                    lemma_push_piece(st.chars, cur);
                    assert(concat(st2.chars) + st2.cur =~= concat(st.chars) + cur);
                }
            } else if !nword {
                let f = flush(st);
                if st.cur.len() > 0 {
                    lemma_push_piece(st.chars, st.cur);
                } else {
                    assert(concat(st.chars) + st.cur =~= concat(st.chars));
                }
                assert(concat(f.chars) == concat(st.chars) + st.cur);
                assert(f.subs == nonblank_pieces(f.chars));
                assert(no_ws(seq![c]));
                lemma_push_piece(f.chars, seq![c]);
                assert(concat(st2.chars) + st2.cur =~= concat(st.chars) + st.cur + seq![c]);
            } else {
                let cur = st.cur.push(c);
                assert(no_ws(cur)) by {
                    assert forall|j: int| 0 <= j < cur.len() implies !is_ws(#[trigger] cur[j]) by {
                        if j < st.cur.len() {
                            assert(cur[j] == st.cur[j]);
                        }
                    }
                }
                assert(concat(st.chars) + cur =~= concat(st.chars) + st.cur + seq![c]);
            }
        } else {
            assert(st.cur.len() == 0);
            assert(is_blank(seq![c]));
            lemma_push_piece(st.chars, seq![c]);
            assert(concat(st2.chars) + st2.cur =~= concat(st.chars) + st.cur + seq![c]);
        }
        assert(concat(st2.chars) + st2.cur =~= cs.take(k));
    } else {
        assert(cs.take(0) =~= Seq::<char>::empty());
        assert(concat(Seq::<Seq<char>>::empty()) + Seq::<char>::empty() =~= Seq::<char>::empty());
    }
}

} // verus!

verus! {

/// Before the last character, the token being read is not empty where
/// the character before it is not whitespace and the last one is a word
/// character.
proof fn lemma_cur_before_last(cs: Seq<char>, word: Seq<bool>)
    requires
        cs.len() >= 2,
        word.len() == cs.len(),
        word_flags_not_ws(cs, word),
        word[cs.len() - 1],
        !is_ws(cs[cs.len() - 2]),
    ensures
        scan(cs, word, (cs.len() - 1) as nat).cur.len() > 0,
{
    let n = cs.len();
    let i = n - 2;
    let st = scan(cs, word, i as nat);
    assert(scan(cs, word, (n - 1) as nat) == scan_step(st, cs[i], word[i], Some((cs[n - 1], word[n - 1]))));
    assert(!is_ws(cs[n - 1]));
}

/// The tokens of `cs` are its non-blank pieces, in order, and every piece
/// is one whitespace character or a run without whitespace; this holds
/// where no word character is whitespace and the text does not end in a
/// word character right after whitespace (or alone).
pub proof fn law_tokens_are_nonblank_pieces(cs: Seq<char>, word: Seq<bool>)
    requires
        word.len() == cs.len(),
        word_flags_not_ws(cs, word),
        ends_cleanly(cs, word),
    ensures
        tokenize(cs, word).subs == nonblank_pieces(tokenize(cs, word).chars),
        forall|m: int|
            0 <= m < tokenize(cs, word).chars.len() ==> well_formed_piece(#[trigger] tokenize(cs, word).chars[m]),
{
    lemma_last_step(cs, word);
}

/// Joining the pieces gives the text back, where no word character is
/// whitespace, the text does not end in whitespace, and it does not end in
/// a word character right after whitespace (or alone).
pub proof fn law_round_trip(cs: Seq<char>, word: Seq<bool>)
    requires
        word.len() == cs.len(),
        word_flags_not_ws(cs, word),
        ends_cleanly(cs, word),
        cs.len() == 0 || !is_ws(cs[cs.len() - 1]),
    ensures
        concat(tokenize(cs, word).chars) == cs,
{
    lemma_last_step(cs, word);
}

proof fn lemma_last_step(cs: Seq<char>, word: Seq<bool>)
    requires
        word.len() == cs.len(),
        word_flags_not_ws(cs, word),
        ends_cleanly(cs, word),
    ensures
        tokenize(cs, word).subs == nonblank_pieces(tokenize(cs, word).chars),
        forall|m: int|
            0 <= m < tokenize(cs, word).chars.len() ==> well_formed_piece(#[trigger] tokenize(cs, word).chars[m]),
        cs.len() > 0 && !is_ws(cs[cs.len() - 1]) ==> concat(tokenize(cs, word).chars) == cs,
{
    let n = cs.len();
    if n == 0 {
        assert(concat(Seq::<Seq<char>>::empty()) =~= cs);
    } else {
        let k = n - 1;
        lemma_scan_inv(cs, word, k);
        let st = scan(cs, word, k as nat);
        let c = cs[k];
        let fin = scan(cs, word, n as nat);
        assert(fin == scan_step(st, c, word[k], None));
        assert(cs.take(n as int) =~= cs);
        assert(cs =~= cs.take(k) + seq![c]);
        if !is_ws(c) {
            if word[k] {
                lemma_cur_before_last(cs, word);
                let cur = st.cur.push(c);
                assert(no_ws(cur)) by {
                    assert forall|j: int| 0 <= j < cur.len() implies !is_ws(#[trigger] cur[j]) by {
                        if j < st.cur.len() {
                            assert(cur[j] == st.cur[j]);
                        }
                    }
                }
                lemma_push_piece(st.chars, cur);
                assert(concat(st.chars) + cur =~= concat(st.chars) + st.cur + seq![c]);
            } else {
                let f = flush(st);
                if st.cur.len() > 0 {
                    lemma_push_piece(st.chars, st.cur);
                } else {
                    assert(concat(st.chars) + st.cur =~= concat(st.chars));
                }
                assert(no_ws(seq![c]));
                lemma_push_piece(f.chars, seq![c]);
                assert(concat(fin.chars) =~= concat(st.chars) + st.cur + seq![c]);
            }
        }
    }
}

} // verus!
