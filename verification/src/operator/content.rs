//! The metered demo content: a fixed essay that is streamed token by token.
//!
//! Deterministic on purpose: the demo must not depend on another content
//! source. The metering loop does not care where content comes from.

use crate::text::{chars_of, from_chars};
use vstd::prelude::*;

verus! {

/// The essay that is served, one token at a time.
pub const ESSAY: &'static str = "Every payment you are watching right now costs this chain nothing.

The words appearing on your screen are being sold one at a time. Each token \
has a price, and the payer's browser is signing a steady stream of vouchers \
to cover them — dozens of little payments that no block will ever contain. \
The chain saw one transaction when this channel opened, and it will see one \
more when it closes. Everything in between happens here, off-chain, at the \
speed of an HTTP round trip.

A payment channel is a simple bargain. The payer escrows a deposit on-chain \
and names three parties: itself, a receiver, and an operator whose key is \
allowed to settle. From then on, payment is just a signature. Each voucher \
signs a single number — the cumulative amount the payer owes — and hands it \
to the operator. A bigger number replaces a smaller one. Lose a voucher? It \
doesn't matter; the latest one carries the whole history. When the channel \
closes, the operator submits only that final voucher, the receiver is paid \
its cumulative in one transfer, and the payer reclaims the rest of the \
deposit.

The enforcement you are experiencing is the interesting part. This server \
streams content only while the debt — tokens served minus tokens paid for — \
stays under a small credit window. Stop paying and the stream pauses, waits \
politely for one more voucher, then hangs up. The operator risks at most the \
credit window; the payer risks at most the deposit. Neither needs to trust \
the other, because the voucher in the operator's hand is already an \
on-chain-enforceable claim, and the deposit backing it is already locked.

Why bother? Because fees and finality make tiny payments absurd on any \
chain, and yet tiny payments are the natural shape of metered services: \
tokens from a model, bytes from an archive, seconds of a stream. A channel \
amortizes two on-chain transactions across thousands of micropayments, \
which is how a feeless demo chain — or a fee-charging real one — can sell \
you this essay word by word without drowning in its own accounting.

When this stream ends, look at the channel's account in the explorer. You \
will find no trace of the payments you just watched — only an open, and \
eventually a close whose single number is the sum of all of them. That gap \
between what happened and what the chain needed to record is the whole \
point.
";

/// Whether `c` has Unicode's white-space property.
pub open spec fn is_space(c: char) -> bool {
    let n = c as u32;
    ||| 9 <= n <= 13
    ||| n == 0x20
    ||| n == 0x85
    ||| n == 0xa0
    ||| n == 0x1680
    ||| 0x2000 <= n <= 0x200a
    ||| n == 0x2028
    ||| n == 0x2029
    ||| n == 0x202f
    ||| n == 0x205f
    ||| n == 0x3000
}

fn is_whitespace(c: char) -> (r: bool)
    ensures
        r == is_space(c),
{
    let n: u32 = c as u32;
    (9 <= n && n <= 13) || n == 0x20 || n == 0x85 || n == 0xa0 || n == 0x1680 || (0x2000 <= n && n
        <= 0x200a) || n == 0x2028 || n == 0x2029 || n == 0x202f || n == 0x205f || n == 0x3000
}

/// Whether `t` is a word of `word` characters and the white space behind it.
pub open spec fn is_word_and_space(t: Seq<char>, word: int) -> bool {
    &&& 0 <= word <= t.len()
    &&& forall|i: int| 0 <= i < word ==> !is_space(#[trigger] t[i])
    &&& forall|i: int| word <= i < t.len() ==> is_space(#[trigger] t[i])
}

/// Whether `t` is a token: a word and the white space behind it.
pub open spec fn is_token(t: Seq<char>) -> bool {
    t.len() > 0 && exists|word: int| is_word_and_space(t, word)
}

/// The texts of a list put together.
pub open spec fn joined(tokens: Seq<String>) -> Seq<char>
    decreases tokens.len(),
{
    if tokens.len() == 0 {
        Seq::empty()
    } else {
        joined(tokens.drop_last()) + tokens.last()@
    }
}

/// Whether `tokens` splits `text` into words with the white space that follows
/// each: put together they are the text, every token but the last ends in white
/// space, and every token but the first starts with a word.
pub open spec fn splits(tokens: Seq<String>, text: Seq<char>) -> bool {
    &&& joined(tokens) == text
    &&& forall|k: int| 0 <= k < tokens.len() ==> is_token((#[trigger] tokens[k])@)
    &&& forall|k: int| 0 <= k < tokens.len() - 1 ==> is_space((#[trigger] tokens[k])@.last())
    &&& forall|k: int| 0 < k < tokens.len() ==> !is_space((#[trigger] tokens[k])@[0])
}

/// Whether a token starts at `i`: at the start of the text, and where a word
/// follows white space.
pub open spec fn starts_token(text: Seq<char>, i: int) -> bool {
    i == 0 || (is_space(text[i - 1]) && !is_space(text[i]))
}

/// How many tokens a text has.
pub open spec fn token_count(text: Seq<char>) -> nat
    decreases text.len(),
{
    if text.len() == 0 {
        0
    } else {
        token_count(text.drop_last()) + if starts_token(text, text.len() - 1) {
            1nat
        } else {
            0
        }
    }
}

proof fn lemma_token_counts_once(text: Seq<char>, start: int, end: int)
    requires
        0 <= start < end <= text.len(),
        starts_token(text, start),
        forall|i: int| start < i < end ==> !starts_token(text, i),
    ensures
        token_count(text.take(end)) == token_count(text.take(start)) + 1,
    decreases end - start,
{
    let shorter = text.take(end).drop_last();
    assert(shorter =~= text.take(end - 1));
    assert(starts_token(text.take(end), end - 1) == starts_token(text, end - 1));
    if start < end - 1 {
        lemma_token_counts_once(text, start, end - 1);
    }
}

/// Splits a text into tokens: each is one word plus the white space that
/// follows it.
pub fn tokenize(text: &str) -> (tokens: Vec<String>)
    ensures
        splits(tokens@, text@),
        tokens@.len() == token_count(text@),
{
    let chars = chars_of(text);
    let mut tokens: Vec<String> = Vec::new();
    let mut start: usize = 0;
    assert(chars@.take(0) =~= Seq::<char>::empty());
    while start < chars.len()
        invariant
            chars@ == text@,
            start <= chars.len(),
            joined(tokens@) == chars@.take(start as int),
            forall|k: int| 0 <= k < tokens@.len() ==> is_token((#[trigger] tokens@[k])@),
            forall|k: int|
                0 <= k < tokens@.len() - 1 ==> is_space((#[trigger] tokens@[k])@.last()),
            forall|k: int| 0 < k < tokens@.len() ==> !is_space((#[trigger] tokens@[k])@[0]),
            tokens@.len() == 0 <==> start == 0,
            tokens@.len() > 0 && start < chars.len() ==> is_space(tokens@.last()@.last()),
            start < chars.len() ==> starts_token(chars@, start as int),
            tokens@.len() == token_count(chars@.take(start as int)),
        decreases chars.len() - start,
    {
        let mut word_end: usize = start;
        while word_end < chars.len() && !is_whitespace(chars[word_end])
            invariant
                start <= word_end <= chars.len(),
                forall|i: int| start <= i < word_end ==> !is_space(#[trigger] chars@[i]),
            decreases chars.len() - word_end,
        {
            word_end = word_end + 1;
        }
        let mut end: usize = word_end;
        while end < chars.len() && is_whitespace(chars[end])
            invariant
                word_end <= end <= chars.len(),
                forall|i: int| word_end <= i < end ==> is_space(#[trigger] chars@[i]),
            decreases chars.len() - end,
        {
            end = end + 1;
        }
        assert(end > start) by {
            if word_end == start {
                assert(is_space(chars@[start as int]));
            }
        }
        let ghost before = tokens@;
        let part = vstd::slice::slice_subrange(chars.as_slice(), start, end);
        let token = from_chars(part);
        proof {
            assert(token@ =~= chars@.subrange(start as int, end as int));
            assert(is_word_and_space(token@, word_end - start));
            assert forall|i: int| start < i < end implies !starts_token(chars@, i) by {
                if i <= word_end {
                    assert(!is_space(chars@[i - 1]));
                } else {
                    assert(is_space(chars@[i]));
                }
            }
            lemma_token_counts_once(chars@, start as int, end as int);
            if end < chars.len() {
                assert(is_space(chars@[end - 1]));
                assert(token@.last() == chars@[end - 1]);
                assert(word_end < end);
            }
        }
        tokens.push(token);
        proof {
            assert(tokens@.drop_last() =~= before);
            assert(joined(tokens@) =~= chars@.take(end as int));
            assert forall|k: int| 0 <= k < tokens@.len() - 1 implies is_space(
                (#[trigger] tokens@[k])@.last(),
            ) by {
                assert(tokens@[k] == before[k]);
            }
        }
        start = end;
    }
    assert(chars@.take(chars@.len() as int) =~= chars@);
    tokens
}

/// The essay split into priced tokens. Put together they are the essay, so a
/// client can render chunks verbatim.
pub fn tokens() -> (tokens: Vec<String>)
    ensures
        splits(tokens@, ESSAY@),
        tokens@.len() == token_count(ESSAY@),
{
    tokenize(ESSAY)
}

/// Every token of a text that starts with a word has a word in it, and a text
/// that is not empty has tokens.
pub proof fn tokens_hold_words(tokens: Seq<String>, text: Seq<char>, k: int)
    requires
        splits(tokens, text),
        text.len() > 0 ==> !is_space(text[0]),
        0 <= k < tokens.len(),
    ensures
        !is_space(tokens[k]@[0]),
{
    if k == 0 {
        lemma_joined_starts(tokens);
        assert(is_token(tokens[0]@));
    }
}

/// Whether two lists hold the same texts.
pub open spec fn same_tokens(a: Seq<String>, b: Seq<String>) -> bool {
    &&& a.len() == b.len()
    &&& forall|k: int| 0 <= k < a.len() ==> (#[trigger] a[k])@ == b[k]@
}

proof fn lemma_last_is_no_shorter(a: Seq<String>, b: Seq<String>, text: Seq<char>)
    requires
        splits(a, text),
        splits(b, text),
        a.len() > 0,
        b.len() > 0,
    ensures
        a.last()@.len() >= b.last()@.len(),
{
    let short = a.last()@;
    let long = b.last()@;
    assert(is_token(short) && is_token(long));
    if short.len() < long.len() {
        let at = text.len() - short.len();
        let from = text.len() - long.len();
        assert(text == joined(a.drop_last()) + short);
        assert(text == joined(b.drop_last()) + long);
        if a.len() == 1 {
            assert(joined(a.drop_last()) =~= Seq::<char>::empty());
        } else {
            let before = a[a.len() - 2]@;
            assert(is_token(before));
            assert(a.drop_last().last() == a[a.len() - 2]);
            assert(joined(a.drop_last()) == joined(a.drop_last().drop_last()) + before);
            assert(text[at] == short[0]);
            assert(text[at - 1] == before.last());
            assert(!is_space(text[at]) && is_space(text[at - 1]));
            let word = choose|word: int| is_word_and_space(long, word);
            assert(long[at - from] == text[at]);
            assert(long[at - 1 - from] == text[at - 1]);
        }
    }
}

/// A text is split into tokens in one way only.
pub proof fn splits_are_unique(a: Seq<String>, b: Seq<String>, text: Seq<char>)
    requires
        splits(a, text),
        splits(b, text),
    ensures
        same_tokens(a, b),
    decreases a.len(),
{
    if a.len() > 0 {
        lemma_joined_starts(a);
    }
    if b.len() > 0 {
        lemma_joined_starts(b);
    }
    if a.len() > 0 && b.len() > 0 {
        lemma_last_is_no_shorter(a, b, text);
        lemma_last_is_no_shorter(b, a, text);
        let n = a.last()@.len();
        let rest = text.take(text.len() - n);
        assert(text == joined(a.drop_last()) + a.last()@);
        assert(text == joined(b.drop_last()) + b.last()@);
        assert(joined(a.drop_last()) =~= rest);
        assert(joined(b.drop_last()) =~= rest);
        assert(a.last()@ =~= b.last()@) by {
            assert forall|i: int| 0 <= i < n implies a.last()@[i] == b.last()@[i] by {
                assert(a.last()@[i] == text[text.len() - n + i]);
                assert(b.last()@[i] == text[text.len() - n + i]);
            }
        }
        splits_are_unique(a.drop_last(), b.drop_last(), rest);
        assert forall|k: int| 0 <= k < a.len() implies (#[trigger] a[k])@ == b[k]@ by {
            if k < a.len() - 1 {
                assert(a.drop_last()[k] == a[k]);
                assert(b.drop_last()[k] == b[k]);
            }
        }
    }
}

proof fn lemma_joined_starts(tokens: Seq<String>)
    requires
        tokens.len() > 0,
        tokens[0]@.len() > 0,
    ensures
        joined(tokens).len() > 0,
        joined(tokens)[0] == tokens[0]@[0],
    decreases tokens.len(),
{
    if tokens.len() > 1 {
        assert(tokens.drop_last()[0] == tokens[0]);
        lemma_joined_starts(tokens.drop_last());
    } else {
        assert(joined(tokens.drop_last()) =~= Seq::<char>::empty());
    }
}

/// White space is what Unicode calls so: twenty-five characters, six of them
/// ASCII.
pub proof fn white_space_is_unicodes(c: char)
    ensures
        is_space(c) <==> seq![
            '\u{9}', '\u{a}', '\u{b}', '\u{c}', '\u{d}', '\u{20}', '\u{85}', '\u{a0}',
            '\u{1680}', '\u{2000}', '\u{2001}', '\u{2002}', '\u{2003}', '\u{2004}', '\u{2005}',
            '\u{2006}', '\u{2007}', '\u{2008}', '\u{2009}', '\u{200a}', '\u{2028}', '\u{2029}',
            '\u{202f}', '\u{205f}', '\u{3000}',
        ].contains(c),
{
    let all = seq![
        '\u{9}', '\u{a}', '\u{b}', '\u{c}', '\u{d}', '\u{20}', '\u{85}', '\u{a0}', '\u{1680}',
        '\u{2000}', '\u{2001}', '\u{2002}', '\u{2003}', '\u{2004}', '\u{2005}', '\u{2006}',
        '\u{2007}', '\u{2008}', '\u{2009}', '\u{200a}', '\u{2028}', '\u{2029}', '\u{202f}',
        '\u{205f}', '\u{3000}',
    ];
    let n = c as int;
    if is_space(c) {
        let k: int = if n <= 13 {
            n - 9
        } else if n == 0x20 {
            5
        } else if n == 0x85 {
            6
        } else if n == 0xa0 {
            7
        } else if n == 0x1680 {
            8
        } else if n <= 0x200a {
            n - 0x2000 + 9
        } else if n == 0x2028 {
            20
        } else if n == 0x2029 {
            21
        } else if n == 0x202f {
            22
        } else if n == 0x205f {
            23
        } else {
            24
        };
        assert(all[k] == c);
    }
}

} // verus!
