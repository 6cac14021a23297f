use vstd::prelude::*;

verus! {

// The topology sources are byte streams: records are lines, fields are
// ASCII-whitespace-separated tokens, and face corners are
// slash-separated 1-based indices.

/// ASCII whitespace, as the record tokenizer splits on it.
pub open spec fn is_ws(b: u8) -> bool {
    b == 32 || b == 9 || b == 10 || b == 11 || b == 12 || b == 13
}

/// The length of the leading token of `s`: the longest
/// non-whitespace prefix.
pub open spec fn token_len(s: Seq<u8>) -> nat
    decreases s.len(),
{
    if s.len() == 0 || is_ws(s[0]) {
        0
    } else {
        1 + token_len(s.drop_first())
    }
}

/// The whitespace-separated tokens of one line, in order.
pub open spec fn tokens_of(s: Seq<u8>) -> Seq<Seq<u8>>
    decreases s.len(),
    via tokens_of_dec
{
    if s.len() == 0 {
        Seq::empty()
    } else if is_ws(s[0]) {
        tokens_of(s.drop_first())
    } else {
        seq![s.take(token_len(s) as int)] + tokens_of(s.skip(token_len(s) as int))
    }
}

#[via_fn]
proof fn tokens_of_dec(s: Seq<u8>) {
    if s.len() > 0 && !is_ws(s[0]) {
        lemma_token_len_pos(s);
    }
}

proof fn lemma_token_len_pos(s: Seq<u8>)
    requires
        s.len() > 0,
        !is_ws(s[0]),
    ensures
        1 <= token_len(s) <= s.len(),
{
    lemma_token_len_le(s.drop_first());
}

proof fn lemma_token_len_le(s: Seq<u8>)
    ensures
        token_len(s) <= s.len(),
    decreases s.len(),
{
    if s.len() > 0 && !is_ws(s[0]) {
        lemma_token_len_le(s.drop_first());
    }
}

/// Dropping a leading whitespace byte drops no token.
proof fn lemma_tokens_ws_step(s: Seq<u8>, i: int)
    requires
        0 <= i < s.len(),
        is_ws(s[i]),
    ensures
        tokens_of(s.skip(i)) == tokens_of(s.skip(i + 1)),
{
    assert(s.skip(i)[0] == s[i]);
    assert(s.skip(i).drop_first() =~= s.skip(i + 1));
}

/// A full token at `i .. j` stands first in the remaining token stream.
proof fn lemma_tokens_token_step(s: Seq<u8>, i: int, j: int)
    requires
        0 <= i < j <= s.len(),
        token_len(s.skip(i)) == j - i,
    ensures
        tokens_of(s.skip(i)) == seq![s.subrange(i, j)] + tokens_of(s.skip(j)),
{
    let t = s.skip(i);
    assert(t.len() > 0);
    assert(!is_ws(t[0])) by {
        if is_ws(t[0]) {
            assert(token_len(t) == 0);
        }
    }
    assert(t.take(j - i) =~= s.subrange(i, j));
    assert(t.skip(j - i) =~= s.skip(j));
}

/// Stepping over one non-whitespace byte shortens the leading token by
/// one.
proof fn lemma_token_len_step(s: Seq<u8>, i: int)
    requires
        0 <= i < s.len(),
        !is_ws(s[i]),
    ensures
        token_len(s.skip(i)) == 1 + token_len(s.skip(i + 1)),
{
    assert(s.skip(i)[0] == s[i]);
    assert(s.skip(i).drop_first() =~= s.skip(i + 1));
}

proof fn lemma_token_len_stop(s: Seq<u8>, i: int)
    requires
        0 <= i <= s.len(),
        i == s.len() || is_ws(s[i]),
    ensures
        token_len(s.skip(i)) == 0,
{
    if i < s.len() {
        assert(s.skip(i)[0] == s[i]);
    }
}

/// Split one line into its whitespace-separated tokens.
pub fn tokenize(line: &Vec<u8>) -> (toks: Vec<Vec<u8>>)
    ensures
        toks.deep_view() == tokens_of(line@),
{
    let n = line.len();
    let mut toks: Vec<Vec<u8>> = Vec::new();
    let mut i: usize = 0;
    proof {
        assert(line@.skip(0) =~= line@);
        assert(toks.deep_view() + tokens_of(line@.skip(0)) =~~= tokens_of(line@));
    }
    while i < n
        invariant
            i <= n,
            n == line@.len(),
            toks.deep_view() + tokens_of(line@.skip(i as int)) =~~= tokens_of(line@),
        decreases n - i,
    {
        if is_ws_byte(line[i]) {
            proof {
                lemma_tokens_ws_step(line@, i as int);
            }
            i = i + 1;
        } else {
            let start = i;
            let mut tok: Vec<u8> = Vec::new();
            let mut j: usize = i;
            proof {
                assert(tok@ =~= line@.subrange(start as int, j as int));
            }
            while j < n && !is_ws_byte(line[j])
                invariant
                    start <= j <= n,
                    n == line@.len(),
                    tok@ == line@.subrange(start as int, j as int),
                    forall|k: int| start <= k < j ==> !is_ws(line@[k]),
                decreases n - j,
            {
                tok.push(line[j]);
                proof {
                    assert(tok@ =~= line@.subrange(start as int, j as int + 1));
                }
                j = j + 1;
            }
            proof {
                lemma_token_len_stop(line@, j as int);
                lemma_token_len_chain(line@, start as int, j as int);
                lemma_tokens_token_step(line@, start as int, j as int);
                assert(toks.deep_view().push(tok@) + tokens_of(line@.skip(j as int))
                    =~~= tokens_of(line@));
            }
            toks.push(tok);
            i = j;
        }
    }
    proof {
        assert(line@.skip(n as int) =~= Seq::<u8>::empty());
        assert(toks.deep_view() =~~= tokens_of(line@));
    }
    toks
}

/// Over a run of non-whitespace bytes the leading-token length telescopes.
proof fn lemma_token_len_chain(s: Seq<u8>, i: int, j: int)
    requires
        0 <= i <= j <= s.len(),
        forall|k: int| i <= k < j ==> !is_ws(s[k]),
        token_len(s.skip(j)) == 0,
    ensures
        token_len(s.skip(i)) == j - i,
    decreases j - i,
{
    if i < j {
        lemma_token_len_step(s, i);
        lemma_token_len_chain(s, i + 1, j);
    }
}

/// Whether a byte is ASCII whitespace.
pub fn is_ws_byte(b: u8) -> (r: bool)
    ensures
        r == is_ws(b),
{
    b == 32 || b == 9 || b == 10 || b == 11 || b == 12 || b == 13
}

/// The length of the first line of `s`: the distance to the first
/// newline byte, or the whole length.
pub open spec fn line_len(s: Seq<u8>) -> nat
    decreases s.len(),
{
    if s.len() == 0 || s[0] == 10 {
        0
    } else {
        1 + line_len(s.drop_first())
    }
}

/// A line with its trailing carriage return removed, as the reader
/// strips line endings.
pub open spec fn strip_cr(l: Seq<u8>) -> Seq<u8> {
    if l.len() > 0 && l.last() == 13 {
        l.drop_last()
    } else {
        l
    }
}

/// The lines of a byte stream: split at each newline, the newline
/// consumed, a trailing carriage return stripped from each line, and no
/// empty final line after a trailing newline.
pub open spec fn lines_of(s: Seq<u8>) -> Seq<Seq<u8>>
    decreases s.len(),
{
    if s.len() == 0 {
        Seq::empty()
    } else {
        let k = line_len(s) as int;
        if k < s.len() {
            seq![strip_cr(s.take(k))] + lines_of(s.skip(k + 1))
        } else {
            seq![strip_cr(s)]
        }
    }
}

proof fn lemma_line_len_chain(s: Seq<u8>, i: int, j: int)
    requires
        0 <= i <= j <= s.len(),
        forall|k: int| i <= k < j ==> s[k] != 10,
        j == s.len() || s[j] == 10,
    ensures
        line_len(s.skip(i)) == j - i,
    decreases j - i,
{
    if i < j {
        assert(s.skip(i)[0] == s[i]);
        assert(s.skip(i).drop_first() =~= s.skip(i + 1));
        lemma_line_len_chain(s, i + 1, j);
    } else {
        if j < s.len() {
            assert(s.skip(j)[0] == s[j]);
        }
    }
}

/// Split a source into lines, newline bytes consumed and one trailing
/// carriage return stripped from each line.
pub fn split_lines(src: &Vec<u8>) -> (lines: Vec<Vec<u8>>)
    ensures
        lines.deep_view() == lines_of(src@),
{
    let n = src.len();
    let mut lines: Vec<Vec<u8>> = Vec::new();
    let mut i: usize = 0;
    proof {
        assert(src@.skip(0) =~= src@);
        assert(lines.deep_view() + lines_of(src@.skip(0)) =~~= lines_of(src@));
    }
    while i < n
        invariant
            i <= n,
            n == src@.len(),
            lines.deep_view() + lines_of(src@.skip(i as int)) =~~= lines_of(src@),
        decreases n - i,
    {
        let start = i;
        let mut line: Vec<u8> = Vec::new();
        let mut j: usize = i;
        proof {
            assert(line@ =~= src@.subrange(start as int, j as int));
        }
        while j < n && src[j] != 10
            invariant
                start <= j <= n,
                n == src@.len(),
                line@ == src@.subrange(start as int, j as int),
                forall|k: int| start <= k < j ==> src@[k] != 10,
            decreases n - j,
        {
            line.push(src[j]);
            proof {
                assert(line@ =~= src@.subrange(start as int, j as int + 1));
            }
            j = j + 1;
        }
        // strip one trailing carriage return, as the line reader does
        if line.len() > 0 && line[line.len() - 1] == 13 {
            line.pop();
        }
        proof {
            let t = src@.skip(start as int);
            lemma_line_len_chain(src@, start as int, j as int);
            assert(t.take(j - start as int) =~= src@.subrange(start as int, j as int));
            assert(line@ =~= strip_cr(src@.subrange(start as int, j as int)));
            assert(t.len() > 0);
            if j < n {
                // a newline was found: the rest continues after it
                assert(t.skip(j - start as int + 1) =~= src@.skip(j as int + 1));
                assert(lines_of(t) == seq![strip_cr(t.take(j - start as int))] + lines_of(
                    src@.skip(j as int + 1),
                ));
                assert(t.take(j - start as int) =~= t.take(line_len(t) as int));
            } else {
                // final line without trailing newline
                assert(t =~= src@.subrange(start as int, j as int));
                assert(lines_of(t) == seq![strip_cr(t)]);
                assert(lines_of(src@.skip(j as int)) =~= Seq::<Seq<u8>>::empty());
            }
            let nexti: int = if j < n { j as int + 1 } else { j as int };
            assert(lines.deep_view().push(line@) + lines_of(src@.skip(nexti))
                =~~= lines_of(src@));
        }
        lines.push(line);
        if j < n {
            i = j + 1;
        } else {
            i = j;
        }
    }
    proof {
        assert(src@.skip(n as int) =~= Seq::<u8>::empty());
        assert(lines.deep_view() =~~= lines_of(src@));
    }
    lines
}

/// The length of the leading slash-free run of `s`.
pub open spec fn slash_len(s: Seq<u8>) -> nat
    decreases s.len(),
{
    if s.len() == 0 || s[0] == 47 {
        0
    } else {
        1 + slash_len(s.drop_first())
    }
}

/// Split on `/`, keeping empty parts: a corner descriptor
/// `positionRef[/uvRef[/ignoredRef]]` splits into its reference fields.
pub open spec fn split_slash(s: Seq<u8>) -> Seq<Seq<u8>>
    decreases s.len(),
    via split_slash_dec
{
    let k = slash_len(s) as int;
    if k == s.len() {
        seq![s]
    } else {
        seq![s.take(k)] + split_slash(s.skip(k + 1))
    }
}

#[via_fn]
proof fn split_slash_dec(s: Seq<u8>) {
    lemma_slash_len_le(s);
}

proof fn lemma_slash_len_le(s: Seq<u8>)
    ensures
        slash_len(s) <= s.len(),
    decreases s.len(),
{
    if s.len() > 0 && s[0] != 47 {
        lemma_slash_len_le(s.drop_first());
    }
}

proof fn lemma_slash_len_chain(s: Seq<u8>, i: int, j: int)
    requires
        0 <= i <= j <= s.len(),
        forall|k: int| i <= k < j ==> s[k] != 47,
        j == s.len() || s[j] == 47,
    ensures
        slash_len(s.skip(i)) == j - i,
    decreases j - i,
{
    if i < j {
        assert(s.skip(i)[0] == s[i]);
        assert(s.skip(i).drop_first() =~= s.skip(i + 1));
        lemma_slash_len_chain(s, i + 1, j);
    } else {
        if j < s.len() {
            assert(s.skip(j)[0] == s[j]);
        }
    }
}

/// Split a corner descriptor on `/`, keeping empty parts.
pub fn split_on_slash(tok: &Vec<u8>) -> (parts: Vec<Vec<u8>>)
    ensures
        parts.deep_view() == split_slash(tok@),
        parts.deep_view().len() >= 1,
{
    let n = tok.len();
    let mut parts: Vec<Vec<u8>> = Vec::new();
    let mut i: usize = 0;
    proof {
        assert(tok@.skip(0) =~= tok@);
        assert(parts.deep_view() + split_slash(tok@.skip(0)) =~~= split_slash(tok@));
        lemma_split_slash_len(tok@);
    }
    loop
        invariant
            i <= n,
            n == tok@.len(),
            parts.deep_view() + split_slash(tok@.skip(i as int)) =~~= split_slash(tok@),
            split_slash(tok@).len() >= 1,
        decreases n - i + 1,
    {
        let start = i;
        let mut part: Vec<u8> = Vec::new();
        let mut j: usize = i;
        proof {
            assert(part@ =~= tok@.subrange(start as int, j as int));
        }
        while j < n && tok[j] != 47
            invariant
                start <= j <= n,
                n == tok@.len(),
                part@ == tok@.subrange(start as int, j as int),
                forall|k: int| start <= k < j ==> tok@[k] != 47,
            decreases n - j,
        {
            part.push(tok[j]);
            proof {
                assert(part@ =~= tok@.subrange(start as int, j as int + 1));
            }
            j = j + 1;
        }
        proof {
            let t = tok@.skip(start as int);
            lemma_slash_len_chain(tok@, start as int, j as int);
            assert(t.take(j - start as int) =~= tok@.subrange(start as int, j as int));
            if j < n {
                assert(t.skip(j - start as int + 1) =~= tok@.skip(j as int + 1));
                assert(split_slash(t) == seq![t.take(j - start as int)] + split_slash(
                    tok@.skip(j as int + 1),
                ));
            } else {
                assert(t =~= tok@.subrange(start as int, j as int));
                assert(split_slash(t) == seq![t]);
            }
        }
        if j < n {
            proof {
                assert(parts.deep_view().push(part@) + split_slash(tok@.skip(j as int + 1))
                    =~~= split_slash(tok@));
            }
            parts.push(part);
            i = j + 1;
        } else {
            proof {
                assert(parts.deep_view().push(part@) + Seq::<Seq<u8>>::empty() =~~= split_slash(
                    tok@,
                ));
            }
            parts.push(part);
            proof {
                assert(parts.deep_view() =~~= split_slash(tok@));
            }
            return parts;
        }
    }
}

proof fn lemma_split_slash_len(s: Seq<u8>)
    ensures
        split_slash(s).len() >= 1,
    decreases s.len(),
{
    let k = slash_len(s) as int;
    lemma_slash_len_le(s);
    if k != s.len() {
        lemma_split_slash_len(s.skip(k + 1));
    }
}

/// A decimal digit.
pub open spec fn is_digit(b: u8) -> bool {
    48 <= b <= 57
}

/// The value of a run of decimal digits.
pub open spec fn dec_val(s: Seq<u8>) -> nat
    decreases s.len(),
{
    if s.len() == 0 {
        0
    } else {
        dec_val(s.drop_last()) * 10 + (s.last() - 48) as nat
    }
}

/// Every byte of `s` is a decimal digit.
pub open spec fn all_digits(s: Seq<u8>) -> bool {
    forall|k: int| 0 <= k < s.len() ==> is_digit(#[trigger] s[k])
}

/// Parsing a 1-based reference field as the standard unsigned decimal
/// parser would: an optional leading `+`, then at least one digit, and
/// the value must fit the platform word.
pub open spec fn parse_index(s: Seq<u8>) -> Option<nat> {
    let body = if s.len() >= 1 && s[0] == 43 {
        s.drop_first()
    } else {
        s
    };
    if body.len() == 0 || !all_digits(body) {
        None
    } else if dec_val(body) > usize::MAX {
        None
    } else {
        Some(dec_val(body))
    }
}

/// Parse a reference field, exactly as `parse_index` reads it.
pub fn parse_index_bytes(tok: &Vec<u8>) -> (r: Option<usize>)
    ensures
        match r {
            Some(v) => parse_index(tok@) == Some(v as nat),
            None => parse_index(tok@) is None,
        },
{
    let n = tok.len();
    let start: usize = if n >= 1 && tok[0] == 43 {
        1
    } else {
        0
    };
    let ghost body = if tok@.len() >= 1 && tok@[0] == 43 {
        tok@.drop_first()
    } else {
        tok@
    };
    proof {
        assert(body =~= tok@.subrange(start as int, n as int));
    }
    if n == start {
        return None;
    }
    let mut acc: u128 = 0;
    let mut i: usize = start;
    proof {
        assert(body.take(0) =~= Seq::<u8>::empty());
    }
    while i < n
        invariant
            start <= i <= n,
            n == tok@.len(),
            body == tok@.subrange(start as int, n as int),
            body == (if tok@.len() >= 1 && tok@[0] == 43 {
                tok@.drop_first()
            } else {
                tok@
            }),
            acc == dec_val(body.take(i - start as int)),
            acc <= usize::MAX,
            all_digits(body.take(i - start as int)),
        decreases n - i,
    {
        let b = tok[i];
        if b < 48 || b > 57 {
            proof {
                assert(body[i - start as int] == b);
                assert(!all_digits(body));
            }
            return None;
        }
        proof {
            assert(body.take(i - start as int + 1).drop_last() =~= body.take(
                i - start as int,
            ));
            assert(body.take(i - start as int + 1).last() == b);
        }
        let next: u128 = acc * 10 + (b - 48) as u128;
        if next > usize::MAX as u128 {
            proof {
                if all_digits(body) {
                    lemma_dec_val_monotone(body, i - start as int + 1);
                }
            }
            return None;
        }
        acc = next;
        proof {
            assert(all_digits(body.take(i - start as int + 1))) by {
                assert(forall|k: int|
                    0 <= k < i - start as int ==> #[trigger] body.take(i - start as int + 1)[k]
                        == body.take(i - start as int)[k]);
                assert(body.take(i - start as int + 1)[i - start as int] == b);
            }
        }
        i = i + 1;
    }
    proof {
        assert(body.take(n - start as int) =~= body);
    }
    Some(acc as usize)
}

/// A digit run's value only grows as the run extends.
proof fn lemma_dec_val_monotone(s: Seq<u8>, i: int)
    requires
        0 <= i <= s.len(),
        all_digits(s),
    ensures
        dec_val(s.take(i)) <= dec_val(s),
    decreases s.len() - i,
{
    if i < s.len() {
        assert(s.take(i + 1).drop_last() =~= s.take(i));
        assert(dec_val(s.take(i)) <= dec_val(s.take(i + 1)));
        lemma_dec_val_monotone(s, i + 1);
    } else {
        assert(s.take(i) =~= s);
    }
}

} // verus!
