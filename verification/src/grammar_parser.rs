//! Parsing of a textual grammar into productions, terminals and
//! non-terminals.
//!
//! A grammar is given one production per line, `LHS ::= RHS1 | RHS2 | ...`;
//! the first blank line ends the grammar.  Tokens between single quotes are
//! terminals; a caret inside a token stands for a literal space, and the
//! bare runs of spaces it leaves between quoted tokens are terminals too;
//! a quoted and a bare token may share one whitespace-separated word, in
//! which case the word is split at the quote boundaries.

use vstd::prelude::*;

use crate::bytes::copy_range;
use crate::grammar::Production;

verus! {

/// The single-quote byte that delimits terminals.
pub const QUOTE: u8 = 39;

/// The space byte on which right-hand sides are split into words.
pub const SPACE: u8 = 32;

/// The caret byte that stands for a space inside a token.
pub const CARET: u8 = 94;

/// The pipe byte that separates alternatives.
pub const PIPE: u8 = 124;

/// The newline byte that separates productions.
pub const NEWLINE: u8 = 10;

/// Splitting `s` at every occurrence of `sep`: `n` separators yield `n + 1`
/// pieces, none of which contains `sep`.
pub open spec fn split_bytes_spec(s: Seq<u8>, sep: u8) -> Seq<Seq<u8>>
    decreases s.len(),
{
    if s.len() == 0 {
        seq![Seq::<u8>::empty()]
    } else if s[0] == sep {
        seq![Seq::<u8>::empty()] + split_bytes_spec(s.drop_first(), sep)
    } else {
        let rest = split_bytes_spec(s.drop_first(), sep);
        seq![seq![s[0]] + rest[0]] + rest.skip(1)
    }
}

/// A split always yields at least one piece.
pub proof fn lemma_split_bytes_len(s: Seq<u8>, sep: u8)
    ensures
        split_bytes_spec(s, sep).len() >= 1,
    decreases s.len(),
{
    if s.len() > 0 {
        lemma_split_bytes_len(s.drop_first(), sep);
    }
}

/// Split the bytes of `s` from index `from` on at every occurrence of `sep`.
fn split_bytes_from(s: &Vec<u8>, sep: u8, from: usize) -> (r: Vec<Vec<u8>>)
    requires
        from <= s@.len(),
    ensures
        r.deep_view() == split_bytes_spec(s@.skip(from as int), sep),
        r@.len() >= 1,
    decreases s@.len() - from,
{
    proof {
        lemma_split_bytes_len(s@.skip(from as int), sep);
    }
    if from == s.len() {
        proof {
            assert(s@.skip(from as int) =~= Seq::<u8>::empty());
        }
        let mut r: Vec<Vec<u8>> = Vec::new();
        r.push(Vec::new());
        proof {
            assert(r.deep_view() =~~= seq![Seq::<u8>::empty()]);
        }
        r
    } else if s[from] == sep {
        let mut r = split_bytes_from(s, sep, from + 1);
        r.insert(0, Vec::new());
        proof {
            assert(s@.skip(from as int).drop_first() =~= s@.skip(from + 1));
            assert(r.deep_view() =~~= seq![Seq::<u8>::empty()] + split_bytes_spec(
                s@.skip(from + 1),
                sep,
            ));
        }
        r
    } else {
        let mut r = split_bytes_from(s, sep, from + 1);
        let mut first = r.remove(0);
        first.insert(0, s[from]);
        r.insert(0, first);
        proof {
            let tail = s@.skip(from as int).drop_first();
            assert(tail =~= s@.skip(from + 1));
            let rest = split_bytes_spec(s@.skip(from + 1), sep);
            assert(s@.skip(from as int)[0] == s@[from as int]);
            assert(r.deep_view() =~~= seq![seq![s@[from as int]] + rest[0]] + rest.skip(1));
        }
        r
    }
}

/// Split `s` at every occurrence of `sep`.
pub fn split_bytes(s: &Vec<u8>, sep: u8) -> (r: Vec<Vec<u8>>)
    ensures
        r.deep_view() == split_bytes_spec(s@, sep),
        r@.len() >= 1,
{
    proof {
        assert(s@.skip(0) =~= s@);
    }
    split_bytes_from(s, sep, 0)
}

/// The offset from `from` at which the production separator `::=` begins
/// in `s`, if it occurs at or after `from`.
pub open spec fn find_prod_off(s: Seq<u8>, from: nat) -> Option<nat>
    decreases s.len() - from,
{
    if from + 3 > s.len() {
        None
    } else if s[from as int] == 58 && s[from as int + 1] == 58 && s[from as int + 2] == 61 {
        Some(0)
    } else {
        match find_prod_off(s, from + 1) {
            Some(k) => Some(k + 1),
            None => None,
        }
    }
}

/// What a found production separator means: it is in bounds, it reads
/// `::=`, and no earlier position at or after `from` does.
pub proof fn lemma_find_prod_off_props(s: Seq<u8>, from: nat)
    ensures
        find_prod_off(s, from) matches Some(off) ==> from + off + 3 <= s.len() && s[(from
            + off) as int] == 58 && s[(from + off + 1) as int] == 58 && s[(from + off + 2) as int]
            == 61,
    decreases s.len() - from,
{
    if from + 3 <= s.len() {
        lemma_find_prod_off_props(s, from + 1);
    }
}

/// Find the production separator `::=` in `s` from index `from` on,
/// returning its absolute index.
pub(crate) fn find_prod(s: &Vec<u8>, from: usize) -> (r: Option<usize>)
    requires
        from <= s@.len(),
    ensures
        r matches Some(i) ==> from <= i && find_prod_off(s@, from as nat) == Some((i - from) as nat),
        r is None ==> find_prod_off(s@, from as nat) is None,
    decreases s@.len() - from,
{
    if s.len() - from < 3 {
        None
    } else if s[from] == 58 && s[from + 1] == 58 && s[from + 2] == 61 {
        Some(from)
    } else {
        find_prod(s, from + 1)
    }
}

/// The offset from `from` of the next quote byte in `s`, if any.
pub open spec fn find_quote_off(s: Seq<u8>, from: nat) -> Option<nat>
    decreases s.len() - from,
{
    if from >= s.len() {
        None
    } else if s[from as int] == QUOTE {
        Some(0)
    } else {
        match find_quote_off(s, from + 1) {
            Some(k) => Some(k + 1),
            None => None,
        }
    }
}

/// What a found quote means: it is in bounds, it is a quote, and no
/// earlier position at or after `from` holds one.
pub proof fn lemma_find_quote_off_props(s: Seq<u8>, from: nat)
    ensures
        find_quote_off(s, from) matches Some(off) ==> from + off < s.len() && s[(from
            + off) as int] == QUOTE && (forall|k: int|
            from <= k < from + off ==> s[k] != QUOTE),
        find_quote_off(s, from) is None ==> forall|k: int| from <= k < s.len() ==> s[k] != QUOTE,
    decreases s.len() - from,
{
    if from < s.len() {
        lemma_find_quote_off_props(s, from + 1);
    }
}

/// Find the next quote byte in `s` from index `from` on, returning its
/// absolute index.
fn find_quote(s: &Vec<u8>, from: usize) -> (r: Option<usize>)
    requires
        from <= s@.len(),
    ensures
        r matches Some(i) ==> from <= i && i < s@.len() && find_quote_off(s@, from as nat) == Some(
            (i - from) as nat,
        ),
        r is None ==> find_quote_off(s@, from as nat) is None,
    decreases s@.len() - from,
{
    if from >= s.len() {
        None
    } else if s[from] == QUOTE {
        Some(from)
    } else {
        find_quote(s, from + 1)
    }
}

/// The tokens of `s` from index `i` on, split at quote boundaries: a
/// quoted token runs from one quote to the next, both included; the bare
/// chunks between quoted tokens are tokens of their own; an unmatched
/// trailing quote opens a token that runs to the end.
pub open spec fn quote_tokens_from(s: Seq<u8>, i: nat) -> Seq<Seq<u8>>
    decreases s.len() - i,
    via quote_tokens_from_decreases
{
    if i >= s.len() {
        seq![]
    } else if s[i as int] == QUOTE {
        match find_quote_off(s, i + 1) {
            Some(off) => seq![s.subrange(i as int, (i + off + 2) as int)] + quote_tokens_from(
                s,
                i + off + 2,
            ),
            None => seq![s.skip(i as int)],
        }
    } else {
        match find_quote_off(s, i + 1) {
            Some(off) => seq![s.subrange(i as int, (i + off + 1) as int)] + quote_tokens_from(
                s,
                i + off + 1,
            ),
            None => seq![s.skip(i as int)],
        }
    }
}

#[via_fn]
proof fn quote_tokens_from_decreases(s: Seq<u8>, i: nat) {
    if i < s.len() {
        lemma_find_quote_off_props(s, i + 1);
    }
}

/// The quote-boundary tokens of the whole of `s`.
pub open spec fn quote_tokens(s: Seq<u8>) -> Seq<Seq<u8>> {
    quote_tokens_from(s, 0)
}

/// Split a word into its tokens at single-quote boundaries, so that a
/// terminal and an adjacent bare token written without a space come apart.
pub fn split_non_terminals(text: &Vec<u8>) -> (r: Vec<Vec<u8>>)
    ensures
        r.deep_view() == quote_tokens(text@),
{
    let mut acc: Vec<Vec<u8>> = Vec::new();
    let mut i: usize = 0;
    while i < text.len()
        invariant
            i <= text@.len(),
            acc.deep_view() + quote_tokens_from(text@, i as nat) == quote_tokens(text@),
        decreases text@.len() - i,
    {
        let ghost acc0: Seq<Seq<u8>> = acc.deep_view();
        let ghost i0: nat = i as nat;
        proof {
            lemma_find_quote_off_props(text@, (i + 1) as nat);
        }
        let next = find_quote(text, i + 1);
        if text[i] == QUOTE {
            match next {
                Some(j) => {
                    let token = copy_range(text, i, j + 1);
                    acc.push(token);
                    i = j + 1;
                },
                None => {
                    let token = copy_range(text, i, text.len());
                    acc.push(token);
                    proof {
                        assert(text@.subrange(i as int, text@.len() as int) =~= text@.skip(
                            i as int,
                        ));
                    }
                    i = text.len();
                },
            }
        } else {
            match next {
                Some(j) => {
                    let token = copy_range(text, i, j);
                    acc.push(token);
                    i = j;
                },
                None => {
                    let token = copy_range(text, i, text.len());
                    acc.push(token);
                    proof {
                        assert(text@.subrange(i as int, text@.len() as int) =~= text@.skip(
                            i as int,
                        ));
                    }
                    i = text.len();
                },
            }
        }
        proof {
            assert(acc.deep_view() =~~= acc0.push(acc.deep_view().last()));
            assert(quote_tokens_from(text@, i0) =~~= seq![acc.deep_view().last()]
                + quote_tokens_from(text@, i as nat));
            assert(acc.deep_view() + quote_tokens_from(text@, i as nat) =~~= acc0 + (seq![
                acc.deep_view().last(),
            ] + quote_tokens_from(text@, i as nat)));
        }
    }
    proof {
        assert(acc.deep_view() + quote_tokens_from(text@, text@.len()) =~~= acc.deep_view());
    }
    acc
}

/// `s` with every caret byte replaced by a space.
pub open spec fn caret_to_space(s: Seq<u8>) -> Seq<u8> {
    Seq::new(s.len(), |i: int| if s[i] == CARET {
        SPACE
    } else {
        s[i]
    })
}

/// Replace every caret in `w` by a space.
fn replace_caret(w: &Vec<u8>) -> (r: Vec<u8>)
    ensures
        r@ == caret_to_space(w@),
{
    let mut r: Vec<u8> = Vec::new();
    let mut i: usize = 0;
    while i < w.len()
        invariant
            i <= w@.len(),
            r@ == caret_to_space(w@).subrange(0, i as int),
        decreases w@.len() - i,
    {
        let b = w[i];
        if b == CARET {
            r.push(SPACE);
        } else {
            r.push(b);
        }
        proof {
            assert(caret_to_space(w@).subrange(0, i + 1) == caret_to_space(w@).subrange(
                0,
                i as int,
            ).push(caret_to_space(w@)[i as int]));
        }
        i = i + 1;
    }
    proof {
        assert(caret_to_space(w@).subrange(0, w@.len() as int) =~= caret_to_space(w@));
    }
    r
}

/// `s` with one trailing and then one leading space removed, if present.
pub open spec fn trim_one(s: Seq<u8>) -> Seq<u8> {
    let t = if s.len() > 0 && s.last() == SPACE {
        s.drop_last()
    } else {
        s
    };
    if t.len() > 0 && t.first() == SPACE {
        t.drop_first()
    } else {
        t
    }
}

/// Remove one space from the end of `s` and one from its beginning, where
/// present.
pub fn remove_begin_end_whitespace(s: &mut Vec<u8>)
    ensures
        final(s)@ == trim_one(old(s)@),
{
    let len = s.len();
    if len > 0 && s[len - 1] == SPACE {
        s.truncate(len - 1);
        proof {
            assert(old(s)@.subrange(0, old(s)@.len() - 1) =~= old(s)@.drop_last());
        }
    }
    if s.len() > 0 && s[0] == SPACE {
        s.remove(0);
        proof {
            assert(trim_one(old(s)@) =~= final(s)@);
        }
    }
}

/// Whether `s` holds a quoted stretch: two quotes, one after the other.
pub open spec fn has_quote_pair(s: Seq<u8>) -> bool {
    exists|i: int, j: int| 0 <= i < j < s.len() && s[i] == QUOTE && s[j] == QUOTE
}

/// Test whether `s` holds two quotes.
pub fn contains_quote_pair(s: &Vec<u8>) -> (r: bool)
    ensures
        r == has_quote_pair(s@),
{
    let first = find_quote(s, 0);
    proof {
        lemma_find_quote_off_props(s@, 0);
    }
    match first {
        None => {
            proof {
                assert(!has_quote_pair(s@));
            }
            false
        },
        Some(f) => {
            let n = s.len();
            assert(f < n);
            let second = find_quote(s, f + 1);
            proof {
                lemma_find_quote_off_props(s@, (f + 1) as nat);
            }
            match second {
                None => {
                    proof {
                        assert(!has_quote_pair(s@)) by {
                            if has_quote_pair(s@) {
                                let (i, j) = choose|i: int, j: int|
                                    0 <= i < j < s@.len() && s@[i] == QUOTE && s@[j] == QUOTE;
                                assert(i >= f);
                                assert(j > f);
                            }
                        }
                    }
                    false
                },
                Some(j) => {
                    proof {
                        assert(0 <= f < j < s@.len() && s@[f as int] == QUOTE && s@[j as int]
                            == QUOTE);
                    }
                    true
                },
            }
        },
    }
}

/// `s` without its first and last byte, where it has at least three.
pub open spec fn strip_quotes_spec(s: Seq<u8>) -> Seq<u8> {
    if s.len() >= 3 {
        s.subrange(1, s.len() - 1)
    } else {
        s
    }
}

/// Strip the first and last byte (the quotes) from a token of at least
/// three bytes; shorter tokens stay as they are.
pub fn strip_quotes(s: &mut Vec<u8>)
    ensures
        final(s)@ == strip_quotes_spec(old(s)@),
{
    if s.len() >= 3 {
        let stripped = copy_range(s, 1, s.len() - 1);
        *s = stripped;
    }
}

/// A token with a quoted stretch loses its outer bytes; other tokens are
/// kept as they are.
pub open spec fn unquote_token(t: Seq<u8>) -> Seq<u8> {
    if has_quote_pair(t) {
        strip_quotes_spec(t)
    } else {
        t
    }
}

/// Every token of `toks`, unquoted.
pub open spec fn unquote_all(toks: Seq<Seq<u8>>) -> Seq<Seq<u8>> {
    Seq::new(toks.len(), |i: int| unquote_token(toks[i]))
}

/// Strip the quotes from every token of `s` that holds a quoted stretch.
pub fn remove_quotes(s: &mut Vec<Vec<u8>>)
    ensures
        final(s).deep_view() == unquote_all(old(s).deep_view()),
{
    let mut out: Vec<Vec<u8>> = Vec::new();
    let mut i: usize = 0;
    while i < s.len()
        invariant
            i <= s@.len(),
            s@ == old(s)@,
            out.deep_view() =~~= unquote_all(old(s).deep_view()).subrange(0, i as int),
        decreases s@.len() - i,
    {
        let mut item = copy_range(&s[i], 0, s[i].len());
        proof {
            assert(item@ =~= s@[i as int]@);
        }
        if contains_quote_pair(&item) {
            strip_quotes(&mut item);
        }
        out.push(item);
        proof {
            let m = unquote_all(old(s).deep_view());
            assert(old(s).deep_view()[i as int] =~= s@[i as int]@);
            assert(item@ == m[i as int]);
            assert(out.deep_view() =~~= m.subrange(0, i as int).push(m[i as int]));
            assert(m.subrange(0, i + 1) =~~= m.subrange(0, i as int).push(m[i as int]));
        }
        i = i + 1;
    }
    proof {
        let m = unquote_all(old(s).deep_view());
        assert(m.subrange(0, m.len() as int) =~~= m);
    }
    *s = out;
}

/// The tokens of one whitespace-separated word: carets become spaces, then
/// the word splits at quote boundaries.
pub open spec fn word_tokens(w: Seq<u8>) -> Seq<Seq<u8>> {
    quote_tokens(caret_to_space(w))
}

/// The tokens of the words `words[i..]`, concatenated.
pub open spec fn words_tokens(words: Seq<Seq<u8>>, i: int) -> Seq<Seq<u8>>
    decreases words.len() - i,
{
    if i < 0 || i >= words.len() {
        seq![]
    } else {
        word_tokens(words[i]) + words_tokens(words, i + 1)
    }
}

/// The token sequence of one right-hand-side alternative: split on spaces,
/// replace carets, split each word at quote boundaries.
pub open spec fn production_tokens(text: Seq<u8>) -> Seq<Seq<u8>> {
    words_tokens(split_bytes_spec(text, SPACE), 0)
}

/// Split one alternative into its tokens: words come apart at spaces, each
/// caret stands for a space, and quoted terminals separate from adjacent
/// bare tokens.
pub fn split_production(text: &Vec<u8>) -> (r: Vec<Vec<u8>>)
    ensures
        r.deep_view() == production_tokens(text@),
{
    let words = split_bytes(text, SPACE);
    let ghost wdv: Seq<Seq<u8>> = words.deep_view();
    let mut acc: Vec<Vec<u8>> = Vec::new();
    let mut i: usize = 0;
    while i < words.len()
        invariant
            i <= words@.len(),
            wdv == words.deep_view(),
            acc.deep_view() + words_tokens(wdv, i as int) == words_tokens(wdv, 0),
        decreases words@.len() - i,
    {
        let ghost acc0: Seq<Seq<u8>> = acc.deep_view();
        let w2 = replace_caret(&words[i]);
        let mut toks = split_non_terminals(&w2);
        proof {
            assert(wdv[i as int] =~= words@[i as int]@);
            assert(toks.deep_view() == word_tokens(wdv[i as int]));
        }
        let ghost tdv: Seq<Seq<u8>> = toks.deep_view();
        acc.append(&mut toks);
        proof {
            assert(acc.deep_view() =~~= acc0 + tdv);
            assert((acc0 + tdv) + words_tokens(wdv, i + 1) =~~= acc0 + (tdv + words_tokens(
                wdv,
                i + 1,
            )));
        }
        i = i + 1;
    }
    proof {
        assert(acc.deep_view() + words_tokens(wdv, wdv.len() as int) =~~= acc.deep_view());
    }
    acc
}

/// A non-empty bare run of space bytes: literal spacing, written with
/// carets in the grammar text.
pub open spec fn is_space_run(t: Seq<u8>) -> bool {
    t.len() > 0 && forall|i: int| 0 <= i < t.len() ==> t[i] == SPACE
}

/// The terminal content the tokens `toks[i..]` contribute, in order: the
/// stripped content of each quoted token, and each bare run of spaces.
/// A bare space run can only come from carets between quoted terminals,
/// so it is literal output, not a symbol to expand.
pub open spec fn token_terminals(toks: Seq<Seq<u8>>, i: int) -> Seq<Seq<u8>>
    decreases toks.len() - i,
{
    if i < 0 || i >= toks.len() {
        seq![]
    } else if has_quote_pair(toks[i]) {
        seq![strip_quotes_spec(toks[i])] + token_terminals(toks, i + 1)
    } else if is_space_run(toks[i]) {
        seq![toks[i]] + token_terminals(toks, i + 1)
    } else {
        token_terminals(toks, i + 1)
    }
}

/// Test whether `s` is a non-empty run of space bytes.
fn all_spaces(s: &Vec<u8>) -> (r: bool)
    ensures
        r == is_space_run(s@),
{
    if s.len() == 0 {
        return false;
    }
    let mut i: usize = 0;
    while i < s.len()
        invariant
            i <= s@.len(),
            forall|j: int| 0 <= j < i ==> s@[j] == SPACE,
        decreases s@.len() - i,
    {
        if s[i] != SPACE {
            return false;
        }
        i = i + 1;
    }
    true
}

/// Append to `terminals` the terminal content of the tokens of `s`: the
/// content of every quoted token with the quotes stripped, and every bare
/// run of spaces.
pub fn extract_terminals(s: &Vec<Vec<u8>>, terminals: &mut Vec<Vec<u8>>)
    ensures
        final(terminals).deep_view() == old(terminals).deep_view() + token_terminals(
            s.deep_view(),
            0,
        ),
{
    let ghost sdv: Seq<Seq<u8>> = s.deep_view();
    let mut i: usize = 0;
    while i < s.len()
        invariant
            i <= s@.len(),
            sdv == s.deep_view(),
            terminals.deep_view() + token_terminals(sdv, i as int) == old(
                terminals,
            ).deep_view() + token_terminals(sdv, 0),
        decreases s@.len() - i,
    {
        let ghost t0: Seq<Seq<u8>> = terminals.deep_view();
        proof {
            assert(sdv[i as int] =~= s@[i as int]@);
        }
        if contains_quote_pair(&s[i]) {
            let mut t = copy_range(&s[i], 0, s[i].len());
            proof {
                assert(t@ =~= s@[i as int]@);
            }
            strip_quotes(&mut t);
            terminals.push(t);
            proof {
                assert(terminals.deep_view() =~~= t0.push(strip_quotes_spec(sdv[i as int])));
                assert((t0 + seq![strip_quotes_spec(sdv[i as int])]) + token_terminals(
                    sdv,
                    i + 1,
                ) =~~= t0 + (seq![strip_quotes_spec(sdv[i as int])] + token_terminals(sdv, i + 1)));
                assert(terminals.deep_view() =~~= t0 + seq![strip_quotes_spec(sdv[i as int])]);
            }
        } else if all_spaces(&s[i]) {
            let t = copy_range(&s[i], 0, s[i].len());
            proof {
                assert(t@ =~= s@[i as int]@);
            }
            terminals.push(t);
            proof {
                assert(terminals.deep_view() =~~= t0.push(sdv[i as int]));
                assert((t0 + seq![sdv[i as int]]) + token_terminals(sdv, i + 1) =~~= t0 + (seq![
                    sdv[i as int],
                ] + token_terminals(sdv, i + 1)));
                assert(terminals.deep_view() =~~= t0 + seq![sdv[i as int]]);
            }
        }
        i = i + 1;
    }
    proof {
        assert(terminals.deep_view() + token_terminals(sdv, sdv.len() as int)
            =~~= terminals.deep_view());
    }
}

/// Why a grammar text is rejected.
#[derive(Clone, Copy, Debug, PartialEq, Eq, Structural)]
pub enum GrammarError {
    /// A production line before the first blank line lacks `::=`.
    MissingSeparator,
}

/// The index of the first blank line at or after `i`, or the line count if
/// every line from `i` on is non-blank.
pub open spec fn active_count(lines: Seq<Seq<u8>>, i: int) -> int
    decreases lines.len() - i,
{
    if i < 0 || i >= lines.len() || lines[i].len() == 0 {
        i
    } else {
        active_count(lines, i + 1)
    }
}

/// Bounds and meaning of `active_count`: the lines before it are
/// non-blank, and it stops at a blank line or the end.
pub proof fn lemma_active_count(lines: Seq<Seq<u8>>, i: int)
    requires
        0 <= i <= lines.len(),
    ensures
        i <= active_count(lines, i) <= lines.len(),
        forall|k: int| i <= k < active_count(lines, i) ==> lines[k].len() != 0,
        active_count(lines, i) < lines.len() ==> lines[active_count(lines, i) as int].len() == 0,
    decreases lines.len() - i,
{
    if i < lines.len() && lines[i].len() != 0 {
        lemma_active_count(lines, i + 1);
    }
}

/// The lines of a grammar text: pieces between newlines.
pub open spec fn grammar_line_seq(contents: Seq<u8>) -> Seq<Seq<u8>> {
    split_bytes_spec(contents, NEWLINE)
}

/// How many leading lines of the grammar text are active: parsing stops at
/// the first blank line.
pub open spec fn grammar_active_count(contents: Seq<u8>) -> int {
    active_count(grammar_line_seq(contents), 0)
}

/// The non-terminal on the left of a production line: everything before
/// the first `::=`, with one space trimmed from either end.
pub open spec fn line_lhs(line: Seq<u8>) -> Seq<u8> {
    trim_one(line.subrange(0, find_prod_off(line, 0)->0 as int))
}

/// The right-hand side of a production line: everything after the first
/// `::=`.
pub open spec fn line_rhs(line: Seq<u8>) -> Seq<u8> {
    line.skip((find_prod_off(line, 0)->0 + 3) as int)
}

/// The tokens of one alternative: one space trimmed from either end, then
/// split into tokens.
pub open spec fn alt_tokens(alt: Seq<u8>) -> Seq<Seq<u8>> {
    production_tokens(trim_one(alt))
}

/// The parsed alternatives of a production line: the right-hand side split
/// at pipes, each alternative tokenized and its quoted tokens unquoted.
pub open spec fn line_alternatives(line: Seq<u8>) -> Seq<Seq<Seq<u8>>> {
    let alts = split_bytes_spec(line_rhs(line), PIPE);
    Seq::new(alts.len(), |k: int| unquote_all(alt_tokens(alts[k])))
}

/// The terminals contributed by the alternatives `alts[k..]`: the contents
/// of their quoted tokens.
pub open spec fn alts_terminals(alts: Seq<Seq<u8>>, k: int) -> Seq<Seq<u8>>
    decreases alts.len() - k,
{
    if k < 0 || k >= alts.len() {
        seq![]
    } else {
        token_terminals(alt_tokens(alts[k]), 0) + alts_terminals(alts, k + 1)
    }
}

/// The terminals contributed by one production line.
pub open spec fn line_terminals(line: Seq<u8>) -> Seq<Seq<u8>> {
    alts_terminals(split_bytes_spec(line_rhs(line), PIPE), 0)
}

/// The left-hand sides of the first `n` lines, in order.
pub open spec fn lines_nonterminals(lines: Seq<Seq<u8>>, n: int) -> Seq<Seq<u8>>
    decreases n,
{
    if n <= 0 {
        seq![]
    } else {
        lines_nonterminals(lines, n - 1).push(line_lhs(lines[n - 1]))
    }
}

/// The terminals of the first `n` lines, in order.
pub open spec fn lines_terminals(lines: Seq<Seq<u8>>, n: int) -> Seq<Seq<u8>>
    decreases n,
{
    if n <= 0 {
        seq![]
    } else {
        lines_terminals(lines, n - 1) + line_terminals(lines[n - 1])
    }
}


/// The index of the first active line at or after `i` that lacks the
/// `::=` separator, or `ac` if every active line from `i` on has one.
pub open spec fn first_missing_sep(lines: Seq<Seq<u8>>, i: int, ac: int) -> int
    decreases ac - i,
{
    if i < 0 || i >= ac {
        ac
    } else if find_prod_off(lines[i], 0) is None {
        i
    } else {
        first_missing_sep(lines, i + 1, ac)
    }
}

/// Where the first missing separator sits: at `k`, when the lines before
/// `k` all have one and line `k` has none.
proof fn lemma_first_missing_at(lines: Seq<Seq<u8>>, ac: int, i: int, k: int)
    requires
        0 <= i <= k < ac,
        forall|n: int| i <= n < k ==> find_prod_off(lines[n], 0) is Some,
        find_prod_off(lines[k], 0) is None,
    ensures
        first_missing_sep(lines, i, ac) == k,
    decreases k - i,
{
    if i < k {
        lemma_first_missing_at(lines, ac, i + 1, k);
    }
}

/// Parse a grammar text into productions, terminals and non-terminals.
///
/// One production per line; the first blank line ends the grammar.  Every
/// line before it must hold `::=`, else the whole parse is refused and the
/// collections hold what was read before the offending line.
pub fn parse_grammar(
    contents: &Vec<u8>,
    grammar_productions: &mut Vec<Production>,
    grammar_terminals: &mut Vec<Vec<u8>>,
    grammar_non_terminals: &mut Vec<Vec<u8>>,
) -> (r: Result<(), GrammarError>)
    ensures
        ({
            let lines = grammar_line_seq(contents@);
            let ac = grammar_active_count(contents@);
            let base = old(grammar_productions)@.len() as int;
            &&& (r is Ok <==> forall|n: int| 0 <= n < ac ==> find_prod_off(lines[n], 0) is Some)
            &&& r is Ok ==> {
                &&& final(grammar_non_terminals).deep_view() == old(
                    grammar_non_terminals,
                ).deep_view() + lines_nonterminals(lines, ac)
                &&& final(grammar_terminals).deep_view() == old(grammar_terminals).deep_view()
                    + lines_terminals(lines, ac)
                &&& final(grammar_productions)@.len() == base + ac
                &&& final(grammar_productions)@.subrange(0, base) == old(grammar_productions)@
                &&& forall|n: int|
                    0 <= n < ac ==> ((#[trigger] final(grammar_productions)@[base + n]).lhs@
                        == line_lhs(lines[n]) && final(grammar_productions)@[base
                        + n].alternatives.deep_view() == line_alternatives(lines[n]))
            }
            &&& r is Err ==> {
                let fb = first_missing_sep(lines, 0, ac);
                &&& 0 <= fb < ac
                &&& find_prod_off(lines[fb], 0) is None
                &&& final(grammar_non_terminals).deep_view() == old(
                    grammar_non_terminals,
                ).deep_view() + lines_nonterminals(lines, fb)
                &&& final(grammar_terminals).deep_view() == old(grammar_terminals).deep_view()
                    + lines_terminals(lines, fb)
                &&& final(grammar_productions)@.len() == base + fb
                &&& final(grammar_productions)@.subrange(0, base) == old(grammar_productions)@
                &&& forall|n: int|
                    0 <= n < fb ==> ((#[trigger] final(grammar_productions)@[base + n]).lhs@
                        == line_lhs(lines[n]) && final(grammar_productions)@[base
                        + n].alternatives.deep_view() == line_alternatives(lines[n]))
            }
        }),
{
    let lines = split_bytes(contents, NEWLINE);
    let ghost ldv: Seq<Seq<u8>> = lines.deep_view();
    let ghost base: int = grammar_productions@.len() as int;
    let mut li: usize = 0;
    while li < lines.len()
        invariant_except_break
            li <= ldv.len(),
            ldv == lines.deep_view(),
            ldv == grammar_line_seq(contents@),
            active_count(ldv, 0) == active_count(ldv, li as int),
            forall|n: int| 0 <= n < li ==> find_prod_off(ldv[n], 0) is Some,
            grammar_non_terminals.deep_view() == old(grammar_non_terminals).deep_view()
                + lines_nonterminals(ldv, li as int),
            grammar_terminals.deep_view() == old(grammar_terminals).deep_view() + lines_terminals(
                ldv,
                li as int,
            ),
            grammar_productions@.len() == base + li,
            base == old(grammar_productions)@.len() as int,
            grammar_productions@.subrange(0, base) == old(grammar_productions)@,
            forall|n: int|
                0 <= n < li ==> (#[trigger] grammar_productions@[base + n]).lhs@ == line_lhs(
                    ldv[n],
                ) && grammar_productions@[base + n].alternatives.deep_view() == line_alternatives(
                    ldv[n],
                ),
        ensures
            li <= ldv.len(),
            ldv == grammar_line_seq(contents@),
            li as int == active_count(ldv, 0),
            forall|n: int| 0 <= n < li ==> find_prod_off(ldv[n], 0) is Some,
            grammar_non_terminals.deep_view() == old(grammar_non_terminals).deep_view()
                + lines_nonterminals(ldv, li as int),
            grammar_terminals.deep_view() == old(grammar_terminals).deep_view() + lines_terminals(
                ldv,
                li as int,
            ),
            grammar_productions@.len() == base + li,
            base == old(grammar_productions)@.len() as int,
            grammar_productions@.subrange(0, base) == old(grammar_productions)@,
            forall|n: int|
                0 <= n < li ==> (#[trigger] grammar_productions@[base + n]).lhs@ == line_lhs(
                    ldv[n],
                ) && grammar_productions@[base + n].alternatives.deep_view() == line_alternatives(
                    ldv[n],
                ),
        decreases ldv.len() - li,
    {
        let ghost li0: int = li as int;
        proof {
            assert(ldv[li as int] =~= lines@[li as int]@);
        }
        let line = &lines[li];
        if line.len() == 0 {
            break ;
        }

        let p = match find_prod(line, 0) {
            Some(p) => p,
            None => {
                proof {
                    lemma_active_count(ldv, li as int);
                    assert(active_count(ldv, li0) == active_count(ldv, li0 + 1));
                    lemma_active_count(ldv, li0 + 1);
                    assert(li0 < active_count(ldv, 0));
                    assert(find_prod_off(grammar_line_seq(contents@)[li0], 0) is None);
                    lemma_first_missing_at(ldv, active_count(ldv, 0), 0, li0);
                }
                return Err(GrammarError::MissingSeparator);
            },
        };
        proof {
            lemma_find_prod_off_props(line@, 0);
            assert(p + 3 <= line@.len());
        }

        // the left-hand side is the key and a non-terminal
        let mut lhs = copy_range(line, 0, p);
        remove_begin_end_whitespace(&mut lhs);
        proof {
            assert(lhs@ == line_lhs(ldv[li as int]));
        }
        let key_copy = copy_range(&lhs, 0, lhs.len());
        proof {
            assert(key_copy@ =~= lhs@);
        }
        let ghost nt0: Seq<Seq<u8>> = grammar_non_terminals.deep_view();
        grammar_non_terminals.push(key_copy);
        proof {
            assert(grammar_non_terminals.deep_view() =~~= nt0.push(line_lhs(ldv[li as int])));
        }

        // split the right-hand side into alternatives
        let rhs = copy_range(line, p + 3, line.len());
        proof {
            assert(rhs@ =~= line_rhs(ldv[li as int]));
        }
        let alternatives = split_bytes(&rhs, PIPE);
        let ghost adv: Seq<Seq<u8>> = alternatives.deep_view();
        proof {
            assert(adv == split_bytes_spec(line_rhs(ldv[li as int]), PIPE));
        }

        let ghost t_line0: Seq<Seq<u8>> = grammar_terminals.deep_view();
        let mut values: Vec<Vec<Vec<u8>>> = Vec::new();
        let mut k: usize = 0;
        while k < alternatives.len()
            invariant
                k <= adv.len(),
                adv == alternatives.deep_view(),
                values.deep_view() =~~= Seq::new(k as nat, |k2: int| unquote_all(alt_tokens(adv[k2]))),
                grammar_terminals.deep_view() + alts_terminals(adv, k as int) == t_line0
                    + alts_terminals(adv, 0),
            decreases adv.len() - k,
        {
            let ghost t0: Seq<Seq<u8>> = grammar_terminals.deep_view();
            proof {
                assert(adv[k as int] =~= alternatives@[k as int]@);
            }
            let mut item = copy_range(&alternatives[k], 0, alternatives[k].len());
            proof {
                assert(item@ =~= adv[k as int]);
            }
            remove_begin_end_whitespace(&mut item);
            let mut split = split_production(&item);
            proof {
                assert(split.deep_view() == alt_tokens(adv[k as int]));
            }
            extract_terminals(&split, grammar_terminals);
            proof {
                assert((t0 + token_terminals(alt_tokens(adv[k as int]), 0)) + alts_terminals(
                    adv,
                    k + 1,
                ) =~~= t0 + (token_terminals(alt_tokens(adv[k as int]), 0) + alts_terminals(
                    adv,
                    k + 1,
                )));
            }
            remove_quotes(&mut split);
            let ghost v0: Seq<Seq<Seq<u8>>> = values.deep_view();
            values.push(split);
            proof {
                assert(values.deep_view() =~~= v0.push(unquote_all(alt_tokens(adv[k as int]))));
                assert(values.deep_view() =~~= Seq::new(
                    (k + 1) as nat,
                    |k2: int| unquote_all(alt_tokens(adv[k2])),
                ));
            }
            k = k + 1;
        }
        proof {
            assert(alts_terminals(adv, adv.len() as int) =~~= Seq::<Seq<u8>>::empty());
            assert(grammar_terminals.deep_view() =~~= t_line0 + alts_terminals(adv, 0));
            assert(grammar_terminals.deep_view() =~~= old(grammar_terminals).deep_view()
                + lines_terminals(ldv, li0 + 1)) by {
                assert(alts_terminals(adv, 0) == line_terminals(ldv[li0]));
                assert(lines_terminals(ldv, li0 + 1) == lines_terminals(ldv, li0) + line_terminals(
                    ldv[li0],
                ));
                assert((old(grammar_terminals).deep_view() + lines_terminals(ldv, li0))
                    + line_terminals(ldv[li0]) =~~= old(grammar_terminals).deep_view() + (
                lines_terminals(ldv, li0) + line_terminals(ldv[li0])));
            }
        }

        let ghost ps0: Seq<Production> = grammar_productions@;
        grammar_productions.push(Production { lhs, alternatives: values });
        proof {
            assert(values.deep_view() =~~= line_alternatives(ldv[li0]));
            assert(grammar_productions@.subrange(0, base) =~= ps0.subrange(0, base));
            assert(grammar_productions@.last().alternatives.deep_view() == line_alternatives(
                ldv[li0],
            ));
        }
        li = li + 1;
    }
    proof {
        lemma_active_count(ldv, li as int);
    }
    Ok(())
}
} // verus!
