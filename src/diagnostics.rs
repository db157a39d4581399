use vstd::prelude::*;
use vstd::utf8::encode_utf8;
use vstd::string::StringSliceAdditionalSpecFns;

verus! {

/// The byte value of a line feed.
pub const NEWLINE: u8 = 10;

/// A message from the compiler or the exporter, optionally tied to a byte
/// range `[start, end)` of the template source.
pub struct Diagnostic {
    pub message: String,
    pub span: Option<(usize, usize)>,
}

/// Number of line feeds in `s`.
pub open spec fn count_newlines(s: Seq<u8>) -> nat
    decreases s.len(),
{
    if s.len() == 0 {
        0
    } else {
        count_newlines(s.drop_last()) + if s.last() == NEWLINE { 1nat } else { 0nat }
    }
}

/// The 1-based line on which byte `offset` of `body` stands.
pub open spec fn line_of(body: Seq<u8>, offset: int) -> nat {
    1 + count_newlines(body.take(offset))
}

/// The decimal digits of `n`, most significant first.
pub open spec fn decimal(n: nat) -> Seq<u8>
    decreases n,
{
    if n < 10 {
        seq![(48 + n) as u8]
    } else {
        decimal(n / 10).push((48 + n % 10) as u8)
    }
}

/// Start of the line that holds byte `i`: just after the last line feed before `i`.
pub open spec fn line_start(body: Seq<u8>, i: int) -> int
    decreases i,
{
    if i <= 0 {
        0
    } else if body[i - 1] == NEWLINE {
        i
    } else {
        line_start(body, i - 1)
    }
}

/// End of the line that holds byte `i`: the first line feed at or after `i`,
/// or the end of the text.
pub open spec fn line_end(body: Seq<u8>, i: int) -> int
    decreases body.len() - i,
{
    if i >= body.len() {
        body.len() as int
    } else if body[i] == NEWLINE {
        i
    } else {
        line_end(body, i + 1)
    }
}

/// Whether `b` is well-formed UTF-8.
pub uninterp spec fn utf8_valid(b: Seq<u8>) -> bool;

/// Relies on std::str::from_utf8: whether the bytes decode as UTF-8 text.
#[verifier::external_body]
fn is_utf8(b: &[u8]) -> (r: bool)
    ensures
        r == utf8_valid(b@),
{
    std::str::from_utf8(b).is_ok()
}

/// The text put before the line number of a positioned diagnostic.
pub open spec fn marker() -> Seq<u8> {
    encode_utf8("Typst error on line "@)
}

/// The marker `Typst error on line <n>: `.
pub open spec fn line_marker(n: nat) -> Seq<u8> {
    marker() + decimal(n) + seq![58u8, 32u8]
}

/// The source context of a span: every line that the span touches, without
/// the line feeds around them.
pub open spec fn snippet(body: Seq<u8>, start: int, end: int) -> Seq<u8> {
    body.subrange(line_start(body, start), line_end(body, end))
}

/// A span lies within the source.
pub open spec fn span_fits(span: Option<(usize, usize)>, len: nat) -> bool {
    match span {
        Some((s, e)) => s <= e && e <= len,
        None => true,
    }
}

/// What one diagnostic contributes to the message. `valid` tells whether its
/// snippet decodes as text; when it does not, the snippet is left out.
pub open spec fn rendered(message: Seq<char>, span: Option<(usize, usize)>, body: Seq<u8>, valid: bool) -> Seq<u8> {
    match span {
        None => encode_utf8(message),
        Some((s, e)) => {
            let head = encode_utf8(message) + line_marker(line_of(body, s as int));
            if valid {
                head + seq![NEWLINE] + snippet(body, s as int, e as int)
            } else {
                head
            }
        },
    }
}

/// The rendering of a diagnostic against `body`.
pub open spec fn rendered_diag(d: Diagnostic, body: Seq<u8>) -> Seq<u8> {
    rendered(
        d.message@,
        d.span,
        body,
        match d.span {
            Some((s, e)) => utf8_valid(snippet(body, s as int, e as int)),
            None => true,
        },
    )
}

/// The full message: the renderings of all diagnostics, one per line.
pub open spec fn error_message(ds: Seq<Diagnostic>, body: Seq<u8>) -> Seq<u8>
    decreases ds.len(),
{
    if ds.len() == 0 {
        seq![]
    } else if ds.len() == 1 {
        rendered_diag(ds[0], body)
    } else {
        error_message(ds.drop_last(), body) + seq![NEWLINE] + rendered_diag(ds.last(), body)
    }
}

/// Appends `src[from..to]` to `out`.
fn push_range(out: &mut Vec<u8>, src: &[u8], from: usize, to: usize)
    requires
        from <= to <= src@.len(),
    ensures
        final(out)@ == old(out)@ + src@.subrange(from as int, to as int),
{
    let mut i: usize = from;
    while i < to
        invariant
            from <= i <= to <= src@.len(),
            out@ == old(out)@ + src@.subrange(from as int, i as int),
        decreases to - i,
    {
        out.push(src[i]);
        proof {
            assert(src@.subrange(from as int, i + 1) == src@.subrange(from as int, i as int).push(src@[i as int]));
        }
        i = i + 1;
    }
}

/// Appends the decimal digits of `n` to `out`.
fn push_decimal(out: &mut Vec<u8>, n: usize)
    ensures
        final(out)@ == old(out)@ + decimal(n as nat),
    decreases n,
{
    if n >= 10 {
        push_decimal(out, n / 10);
    }
    out.push(48u8 + (n % 10) as u8);
    proof {
        if n >= 10 {
            assert(old(out)@ + decimal(n as nat) == old(out)@ + decimal((n / 10) as nat) + seq![(48 + n % 10) as u8]);
        }
    }
}

/// The 1-based line on which byte `offset` of `body` stands: one plus the
/// number of line feeds before it.
pub fn line_number(body: &[u8], offset: usize) -> (r: usize)
    requires
        offset <= body@.len(),
        offset < usize::MAX,
    ensures
        r == line_of(body@, offset as int),
{
    let mut n: usize = 1;
    let mut i: usize = 0;
    while i < offset
        invariant
            i <= offset <= body@.len(),
            offset < usize::MAX,
            n == 1 + count_newlines(body@.take(i as int)),
            n <= 1 + i,
        decreases offset - i,
    {
        proof {
            assert(body@.take(i + 1).drop_last() == body@.take(i as int));
        }
        if body[i] == NEWLINE {
            n = n + 1;
        }
        i = i + 1;
    }
    n
}

/// Start of the line that holds byte `i` of `body`.
pub fn find_line_start(body: &[u8], i: usize) -> (r: usize)
    requires
        i <= body@.len(),
    ensures
        r == line_start(body@, i as int),
{
    let mut j: usize = i;
    while j > 0 && body[j - 1] != NEWLINE
        invariant
            j <= i <= body@.len(),
            line_start(body@, j as int) == line_start(body@, i as int),
        decreases j,
    {
        j = j - 1;
    }
    j
}

/// End of the line that holds byte `i` of `body`.
pub fn find_line_end(body: &[u8], i: usize) -> (r: usize)
    requires
        i <= body@.len(),
    ensures
        r == line_end(body@, i as int),
{
    let mut j: usize = i;
    while j < body.len() && body[j] != NEWLINE
        invariant
            i <= j <= body@.len(),
            line_end(body@, j as int) == line_end(body@, i as int),
        decreases body@.len() - j,
    {
        j = j + 1;
    }
    j
}

/// Appends what one diagnostic contributes to the message. `valid` tells
/// whether the snippet of its span decodes as text.
pub fn push_diagnostic(out: &mut Vec<u8>, message: &str, span: Option<(usize, usize)>, body: &[u8], valid: bool)
    requires
        span_fits(span, body@.len()),
        body@.len() < usize::MAX,
    ensures
        final(out)@ == old(out)@ + rendered(message@, span, body@, valid),
{
    let m = message.as_bytes();
    push_range(out, m, 0, m.len());
    assert(m@.subrange(0, m@.len() as int) == m@);
    match span {
        None => {},
        Some((s, e)) => {
            let mark = "Typst error on line ".as_bytes();
            push_range(out, mark, 0, mark.len());
            assert(mark@.subrange(0, mark@.len() as int) == mark@);
            let line = line_number(body, s);
            push_decimal(out, line);
            out.push(58u8);
            out.push(32u8);
            if valid {
                let from = find_line_start(body, s);
                let to = find_line_end(body, e);
                proof { lemma_line_bounds(body@, s as int, e as int); }
                out.push(NEWLINE);
                push_range(out, body, from, to);
            }
            assert(final(out)@ =~= old(out)@ + rendered(message@, span, body@, valid));
        },
    }
}

/// The line a positioned diagnostic reports is one plus the number of line
/// feeds before the start of its span.
pub proof fn lemma_reported_line(message: Seq<char>, s: usize, e: usize, body: Seq<u8>, valid: bool)
    ensures
        rendered(message, Some((s, e)), body, valid).subrange(
            0,
            (encode_utf8(message) + line_marker(1 + count_newlines(body.take(s as int)))).len() as int,
        ) == encode_utf8(message) + marker() + decimal(1 + count_newlines(body.take(s as int))) + seq![58u8, 32u8],
{
    let head = encode_utf8(message) + line_marker(1 + count_newlines(body.take(s as int)));
    assert(head == encode_utf8(message) + marker() + decimal(1 + count_newlines(body.take(s as int))) + seq![58u8, 32u8]);
    if valid {
        assert((head + seq![NEWLINE] + snippet(body, s as int, e as int)).subrange(0, head.len() as int) =~= head);
    } else {
        assert(head.subrange(0, head.len() as int) =~= head);
    }
}

proof fn lemma_line_start_bounds(body: Seq<u8>, i: int)
    requires
        0 <= i <= body.len(),
    ensures
        0 <= line_start(body, i) <= i,
    decreases i,
{
    if i > 0 && body[i - 1] != NEWLINE {
        lemma_line_start_bounds(body, i - 1);
    }
}

proof fn lemma_line_end_bounds(body: Seq<u8>, i: int)
    requires
        0 <= i <= body.len(),
    ensures
        i <= line_end(body, i) <= body.len(),
    decreases body.len() - i,
{
    if i < body.len() && body[i] != NEWLINE {
        lemma_line_end_bounds(body, i + 1);
    }
}

/// The lines that a span touches lie within the text, in order.
pub proof fn lemma_line_bounds(body: Seq<u8>, s: int, e: int)
    requires
        0 <= s <= e <= body.len(),
    ensures
        0 <= line_start(body, s) <= s <= e <= line_end(body, e) <= body.len(),
{
    lemma_line_start_bounds(body, s);
    lemma_line_end_bounds(body, e);
}

/// The bytes of the snippet that a diagnostic with span `[s, e)` shows.
fn snippet_is_text(body: &[u8], s: usize, e: usize) -> (r: bool)
    requires
        s <= e <= body@.len(),
    ensures
        r == utf8_valid(snippet(body@, s as int, e as int)),
{
    let from = find_line_start(body, s);
    let to = find_line_end(body, e);
    proof { lemma_line_bounds(body@, s as int, e as int); }
    is_utf8(vstd::slice::slice_subrange(body, from, to))
}

/// Joins the renderings of `errors` against the template `body` into one
/// message, one diagnostic per line.
pub fn get_error_message(body: &str, errors: &Vec<Diagnostic>) -> (r: Vec<u8>)
    requires
        body.spec_bytes().len() < usize::MAX,
        forall|i: int| 0 <= i < errors@.len() ==> span_fits(#[trigger] errors@[i].span, body.spec_bytes().len()),
    ensures
        r@ == error_message(errors@, body.spec_bytes()),
{
    let b = body.as_bytes();
    let mut out: Vec<u8> = Vec::new();
    let mut i: usize = 0;
    while i < errors.len()
        invariant
            i <= errors@.len(),
            b@ == body.spec_bytes(),
            b@.len() < usize::MAX,
            forall|k: int| 0 <= k < errors@.len() ==> span_fits(#[trigger] errors@[k].span, b@.len()),
            out@ == error_message(errors@.take(i as int), b@),
        decreases errors@.len() - i,
    {
        let d = &errors[i];
        let valid = match d.span {
            Some((s, e)) => snippet_is_text(b, s, e),
            None => true,
        };
        proof {
            assert(errors@.take(i + 1).drop_last() =~= errors@.take(i as int));
            assert(errors@.take(i + 1).last() == errors@[i as int]);
        }
        if i > 0 {
            out.push(NEWLINE);
        }
        push_diagnostic(&mut out, d.message.as_str(), d.span, b, valid);
        proof {
            if i == 0 {
                assert(out@ =~= error_message(errors@.take(1), b@));
            }
        }
        i = i + 1;
    }
    assert(errors@.take(errors@.len() as int) =~= errors@);
    out
}

} // verus!
