//! The corpus encoder: splits newline-delimited text into tokens and turns
//! each token into `(context, target)` training pairs with a sliding window.
//!
//! For a window of width `w` a token with codes `c` is padded as
//! `[0; w] ++ c ++ [0]`; the pair at position `j` has the `w` codes starting at
//! `j` as its context and the code at `j + w` as its target. Width 1 gives the
//! bigram pairs `(., a) (a, b) (b, .)` of the token `ab`, width 3 the trigram
//! pairs `[., ., .] -> a`, `[., ., a] -> b`, `[., a, b] -> .`.
use crate::vocab::{code_of, is_symbol, is_symbol_char, stoi};
use vstd::prelude::*;
use vstd::string::StringSliceAdditionalSpecFns;

verus! {

/// Why a corpus could not be encoded.
#[derive(Debug)]
pub enum EncodeError {
    /// A token holds a byte outside the alphabet; the token is carried along.
    UnknownSymbol { token: Vec<u8> },
}

/// Byte values of the line feed and the carriage return.
pub const LINE_FEED: u8 = 10;
pub const CARRIAGE_RETURN: u8 = 13;

/// A line without the carriage return of a `\r\n` ending.
pub open spec fn strip_cr(line: Seq<u8>) -> Seq<u8> {
    if line.len() > 0 && line.last() == CARRIAGE_RETURN {
        line.drop_last()
    } else {
        line
    }
}

/// Closes a line: it becomes a token unless it is blank.
pub open spec fn close_line(done: Seq<Seq<u8>>, line: Seq<u8>) -> Seq<Seq<u8>> {
    if strip_cr(line).len() == 0 {
        done
    } else {
        done.push(strip_cr(line))
    }
}

/// Reading `t` from the left: the tokens of the finished lines, and the line
/// still open.
pub open spec fn scan_lines(t: Seq<u8>) -> (Seq<Seq<u8>>, Seq<u8>)
    decreases t.len(),
{
    if t.len() == 0 {
        (seq![], seq![])
    } else {
        let (done, open) = scan_lines(t.drop_last());
        if t.last() == LINE_FEED {
            (close_line(done, open), seq![])
        } else {
            (done, open.push(t.last()))
        }
    }
}

/// The tokens of a text: its non-blank lines, in order.
pub open spec fn tokens_of(t: Seq<u8>) -> Seq<Seq<u8>> {
    close_line(scan_lines(t).0, scan_lines(t).1)
}

/// The contents of a sequence of byte vectors.
pub open spec fn views(v: Seq<Vec<u8>>) -> Seq<Seq<u8>> {
    Seq::new(v.len(), |i: int| v[i]@)
}

/// Every byte of the token is a symbol of the alphabet.
pub open spec fn valid_token(tok: Seq<u8>) -> bool {
    forall|i: int| 0 <= i < tok.len() ==> is_symbol(#[trigger] tok[i] as char)
}

/// The codes of a token.
pub open spec fn codes_of(tok: Seq<u8>) -> Seq<u32> {
    Seq::new(tok.len(), |i: int| code_of(tok[i] as char))
}

/// The codes `[0; w] ++ codes ++ [0]` over which the window slides.
pub open spec fn padded(codes: Seq<u32>, w: nat) -> Seq<u32> {
    Seq::new(w, |i: int| 0u32) + codes + seq![0u32]
}

/// The first `n` windows of width `w` over `p`, laid end to end.
pub open spec fn windows(p: Seq<u32>, w: nat, n: nat) -> Seq<u32>
    decreases n,
{
    if n == 0 {
        seq![]
    } else {
        windows(p, w, (n - 1) as nat) + p.subrange(n - 1, n - 1 + w)
    }
}

/// The flattened contexts of one token: one window per symbol transition.
pub open spec fn word_contexts(codes: Seq<u32>, w: nat) -> Seq<u32> {
    windows(padded(codes, w), w, codes.len() + 1)
}

/// The targets of one token: its codes, then the boundary.
pub open spec fn word_targets(codes: Seq<u32>) -> Seq<u32> {
    codes.push(0u32)
}

/// The flattened contexts of all tokens, in order.
pub open spec fn corpus_contexts(toks: Seq<Seq<u8>>, w: nat) -> Seq<u32>
    decreases toks.len(),
{
    if toks.len() == 0 {
        seq![]
    } else {
        corpus_contexts(toks.drop_last(), w) + word_contexts(codes_of(toks.last()), w)
    }
}

/// The targets of all tokens, in order.
pub open spec fn corpus_targets(toks: Seq<Seq<u8>>) -> Seq<u32>
    decreases toks.len(),
{
    if toks.len() == 0 {
        seq![]
    } else {
        corpus_targets(toks.drop_last()) + word_targets(codes_of(toks.last()))
    }
}

/// The window after `t` has been seen: the oldest code leaves, `t` enters.
pub open spec fn slid(ctx: Seq<u32>, t: u32) -> Seq<u32> {
    if ctx.len() == 0 {
        ctx
    } else {
        ctx.subrange(1, ctx.len() as int).push(t)
    }
}

/// Shifts a context window by one symbol.
pub fn slide_window(ctx: &Vec<u32>, t: u32) -> (r: Vec<u32>)
    ensures
        r@ == slid(ctx@, t),
{
    let mut r: Vec<u32> = Vec::new();
    if ctx.len() == 0 {
        return r;
    }
    let mut k: usize = 1;
    while k < ctx.len()
        invariant
            1 <= k <= ctx@.len(),
            r@ == ctx@.subrange(1, k as int),
        decreases ctx.len() - k,
    {
        r.push(ctx[k]);
        k += 1;
        assert(r@ =~= ctx@.subrange(1, k as int));
    }
    r.push(t);
    r
}

fn push_line(out: &mut Vec<Vec<u8>>, line: Vec<u8>)
    ensures
        views(final(out)@) == close_line(views(old(out)@), line@),
{
    let ghost orig = line@;
    let mut line = line;
    let n = line.len();
    if n > 0 && line[n - 1] == CARRIAGE_RETURN {
        line.pop();
    }
    assert(line@ =~= strip_cr(orig));
    if line.len() > 0 {
        let ghost before = out@;
        out.push(line);
        assert(views(out@) =~= views(before).push(line@));
    } else {
        assert(views(out@) =~= views(old(out)@));
    }
}

/// Splits text into its non-blank lines; a `\r\n` ending counts as `\n`.
pub fn split_tokens(text: &[u8]) -> (r: Vec<Vec<u8>>)
    ensures
        views(r@) == tokens_of(text@),
{
    let mut out: Vec<Vec<u8>> = Vec::new();
    let mut open: Vec<u8> = Vec::new();
    let mut i: usize = 0;
    while i < text.len()
        invariant
            0 <= i <= text@.len(),
            views(out@) == scan_lines(text@.subrange(0, i as int)).0,
            open@ == scan_lines(text@.subrange(0, i as int)).1,
        decreases text.len() - i,
    {
        let b = text[i];
        assert(text@.subrange(0, i + 1).drop_last() =~= text@.subrange(0, i as int));
        if b == LINE_FEED {
            push_line(&mut out, open);
            open = Vec::new();
        } else {
            open.push(b);
        }
        i += 1;
    }
    assert(text@.subrange(0, i as int) =~= text@);
    push_line(&mut out, open);
    out
}

/// Whether every byte of the token is a symbol of the alphabet.
pub fn is_valid_token(tok: &Vec<u8>) -> (r: bool)
    ensures
        r == valid_token(tok@),
{
    let mut i: usize = 0;
    while i < tok.len()
        invariant
            0 <= i <= tok@.len(),
            forall|k: int| 0 <= k < i ==> is_symbol(#[trigger] tok@[k] as char),
        decreases tok.len() - i,
    {
        if !is_symbol_char(tok[i] as char) {
            return false;
        }
        i += 1;
    }
    true
}

proof fn lemma_windows_len(p: Seq<u32>, w: nat, n: nat)
    requires
        n + w <= p.len() + 1,
    ensures
        windows(p, w, n).len() == n * w,
    decreases n,
{
    if n > 0 {
        let m = (n - 1) as nat;
        lemma_windows_len(p, w, m);
        assert(windows(p, w, n) == windows(p, w, m) + p.subrange(m as int, (m + w) as int));
        assert(n * w == m * w + w) by (nonlinear_arith)
            requires n == m + 1;
    } else {
        assert(n * w == 0) by (nonlinear_arith)
            requires n == 0;
    }
}

/// Appends the pairs of one valid token to `xs` (contexts) and `ys` (targets).
fn encode_word(tok: &Vec<u8>, width: usize, xs: &mut Vec<u32>, ys: &mut Vec<u32>)
    requires
        valid_token(tok@),
    ensures
        final(xs)@ == old(xs)@ + word_contexts(codes_of(tok@), width as nat),
        final(ys)@ == old(ys)@ + word_targets(codes_of(tok@)),
{
    let ghost codes = codes_of(tok@);
    let ghost w = width as nat;
    let ghost p = padded(codes, w);
    let mut ctx: Vec<u32> = Vec::new();
    let mut k: usize = 0;
    while k < width
        invariant
            0 <= k <= width,
            ctx@ == Seq::new(k as nat, |i: int| 0u32),
        decreases width - k,
    {
        ctx.push(0);
        k += 1;
        assert(ctx@ =~= Seq::new(k as nat, |i: int| 0u32));
    }
    assert(ctx@ =~= p.subrange(0, w as int));
    let n = tok.len();
    let mut j: usize = 0;
    while j <= n
        invariant
            0 <= j <= n + 1,
            n == tok@.len(),
            codes == codes_of(tok@),
            p == padded(codes, w),
            w == width,
            valid_token(tok@),
            j <= n ==> ctx@ == p.subrange(j as int, j + w),
            xs@ == old(xs)@ + windows(p, w, j as nat),
            ys@ == old(ys)@ + p.subrange(w as int, w + j),
        decreases n + 1 - j,
    {
        let t: u32 = if j < n {
            stoi(tok[j] as char)
        } else {
            0
        };
        assert(t == p[j + w]);
        let ghost xs_before = xs@;
        let ghost ys_before = ys@;
        xs.extend_from_slice(ctx.as_slice());
        ys.push(t);
        assert(xs@ =~= xs_before + ctx@);
        assert(windows(p, w, (j + 1) as nat) == windows(p, w, j as nat) + p.subrange(
            j as int,
            j + w,
        ));
        assert(xs@ =~= old(xs)@ + windows(p, w, (j + 1) as nat));
        assert(ys@ =~= old(ys)@ + p.subrange(w as int, w + j + 1));
        let next = slide_window(&ctx, t);
        assert(next@ =~= p.subrange(j + 1, j + 1 + w));
        ctx = next;
        if j == n {
            assert(p.subrange(w as int, w + j + 1) =~= word_targets(codes));
            return;
        }
        j += 1;
    }
}

/// `k` is the first token that holds a byte outside the alphabet.
pub open spec fn first_invalid(toks: Seq<Seq<u8>>, k: int) -> bool {
    &&& 0 <= k < toks.len()
    &&& !valid_token(toks[k])
    &&& forall|j: int| 0 <= j < k ==> valid_token(#[trigger] toks[j])
}

/// Every token is valid.
pub open spec fn all_valid(toks: Seq<Seq<u8>>) -> bool {
    forall|k: int| 0 <= k < toks.len() ==> valid_token(#[trigger] toks[k])
}

/// What encoding the tokens `toks` with width `w` yields.
pub open spec fn encodes_to(
    toks: Seq<Seq<u8>>,
    w: nat,
    r: Result<(Vec<u32>, Vec<u32>), EncodeError>,
) -> bool {
    match r {
        Ok(pairs) => {
            &&& all_valid(toks)
            &&& pairs.0@ == corpus_contexts(toks, w)
            &&& pairs.1@ == corpus_targets(toks)
        },
        Err(EncodeError::UnknownSymbol { token }) => exists|k: int|
            first_invalid(toks, k) && token@ == #[trigger] toks[k],
    }
}

/// Encodes a list of tokens into flattened contexts of width `width` and
/// their targets; fails on the first token that holds an unknown byte.
pub fn encode_tokens(tokens: &Vec<Vec<u8>>, width: usize) -> (r: Result<
    (Vec<u32>, Vec<u32>),
    EncodeError,
>)
    ensures
        encodes_to(views(tokens@), width as nat, r),
{
    let ghost toks = views(tokens@);
    let mut xs: Vec<u32> = Vec::new();
    let mut ys: Vec<u32> = Vec::new();
    let mut k: usize = 0;
    while k < tokens.len()
        invariant
            0 <= k <= tokens@.len(),
            toks == views(tokens@),
            forall|j: int| 0 <= j < k ==> valid_token(#[trigger] toks[j]),
            xs@ == corpus_contexts(toks.subrange(0, k as int), width as nat),
            ys@ == corpus_targets(toks.subrange(0, k as int)),
        decreases tokens.len() - k,
    {
        let tok = &tokens[k];
        assert(tok@ == toks[k as int]);
        if !is_valid_token(tok) {
            assert(first_invalid(toks, k as int));
            return Err(EncodeError::UnknownSymbol { token: tok.clone() });
        }
        encode_word(tok, width, &mut xs, &mut ys);
        assert(toks.subrange(0, k + 1).drop_last() =~= toks.subrange(0, k as int));
        k += 1;
    }
    assert(toks.subrange(0, k as int) =~= toks);
    Ok((xs, ys))
}

/// Encodes newline-delimited text (blank lines skipped) into training pairs
/// with a window of `width` symbols.
pub fn encode_corpus(text: &str, width: usize) -> (r: Result<(Vec<u32>, Vec<u32>), EncodeError>)
    ensures
        encodes_to(tokens_of(text.spec_bytes()), width as nat, r),
{
    let tokens = split_tokens(text.as_bytes());
    encode_tokens(&tokens, width)
}

proof fn lemma_word_len(codes: Seq<u32>, w: nat)
    ensures
        word_targets(codes).len() == codes.len() + 1,
        word_contexts(codes, w).len() == (codes.len() + 1) * w,
{
    lemma_windows_len(padded(codes, w), w, codes.len() + 1);
}

/// A token of length `L` encoded alone with width `w` yields exactly `L + 1`
/// pairs: `L + 1` targets and `L + 1` windows of `w` codes each.
pub proof fn lemma_pair_count(tok: Seq<u8>, w: nat)
    ensures
        corpus_targets(seq![tok]).len() == tok.len() + 1,
        corpus_contexts(seq![tok], w).len() == (tok.len() + 1) * w,
{
    let toks = seq![tok];
    assert(toks.drop_last() =~= Seq::<Seq<u8>>::empty());
    assert(toks.last() == tok);
    assert(corpus_targets(toks.drop_last()) == Seq::<u32>::empty());
    assert(corpus_contexts(toks.drop_last(), w) == Seq::<u32>::empty());
    lemma_word_len(codes_of(tok), w);
    assert(corpus_targets(toks) =~= word_targets(codes_of(tok)));
    assert(corpus_contexts(toks, w) =~= word_contexts(codes_of(tok), w));
}

/// Over a whole corpus there is one window of `w` codes per target.
pub proof fn lemma_corpus_pair_count(toks: Seq<Seq<u8>>, w: nat)
    ensures
        corpus_contexts(toks, w).len() == corpus_targets(toks).len() * w,
    decreases toks.len(),
{
    if toks.len() > 0 {
        let rest = toks.drop_last();
        let codes = codes_of(toks.last());
        lemma_corpus_pair_count(rest, w);
        lemma_word_len(codes, w);
        let a = corpus_targets(rest).len();
        let b = codes.len() + 1;
        assert(a * w + b * w == (a + b) * w) by (nonlinear_arith);
    }
}

/// Encoding is a function of the text and the width: encoding the same
/// corpus twice yields the same contexts and targets, or the same error.
pub proof fn lemma_encoding_deterministic(
    text: Seq<u8>,
    w: nat,
    r1: Result<(Vec<u32>, Vec<u32>), EncodeError>,
    r2: Result<(Vec<u32>, Vec<u32>), EncodeError>,
)
    requires
        encodes_to(tokens_of(text), w, r1),
        encodes_to(tokens_of(text), w, r2),
    ensures
        r1 is Ok <==> r2 is Ok,
        r1 is Ok ==> r1->Ok_0.0@ == r2->Ok_0.0@ && r1->Ok_0.1@ == r2->Ok_0.1@,
        r1 is Err ==> r1->Err_0->token@ == r2->Err_0->token@,
{
    let toks = tokens_of(text);
    if r1 is Err && r2 is Err {
        let k1 = choose|k: int| first_invalid(toks, k) && r1->Err_0->token@ == #[trigger] toks[k];
        let k2 = choose|k: int| first_invalid(toks, k) && r2->Err_0->token@ == #[trigger] toks[k];
        assert(k1 == k2) by {
            if k1 < k2 {
                assert(valid_token(toks[k1]));
            } else if k2 < k1 {
                assert(valid_token(toks[k2]));
            }
        }
    } else if r1 is Err {
        let k1 = choose|k: int| first_invalid(toks, k) && r1->Err_0->token@ == #[trigger] toks[k];
        assert(valid_token(toks[k1]));
    } else if r2 is Err {
        let k2 = choose|k: int| first_invalid(toks, k) && r2->Err_0->token@ == #[trigger] toks[k];
        assert(valid_token(toks[k2]));
    }
}

} // verus!
