//! Errors of the current front end: a message and the span it is about.
use crate::stage::tokenize::Span;
use crate::text::{bytes, decimal, push_decimal, push_str, string_bytes};
use crate::tokenize::{find_byte, CARRIAGE_RETURN, NEWLINE};
use vstd::prelude::*;

verus! {

/// What an error says.
#[derive(Debug, PartialEq, Eq)]
pub enum ErrorKind {
    Custom(&'static str),
    Msg(String),
}

/// An error about a span of a source file.
#[derive(Debug, PartialEq, Eq)]
pub struct Error {
    pub span: Span,
    pub kind: ErrorKind,
}

impl Span {
    /// An error about this span.
    pub fn spanned(&self, kind: ErrorKind) -> (r: Error)
        ensures
            r == (Error { span: *self, kind }),
    {
        Error { span: *self, kind }
    }

    /// An error about this span with a fixed message.
    pub fn custom(&self, msg: &'static str) -> (r: Error)
        ensures
            r == (Error { span: *self, kind: ErrorKind::Custom(msg) }),
    {
        self.spanned(ErrorKind::Custom(msg))
    }

    /// An error about this span with a composed message.
    pub fn msg(&self, msg: String) -> (r: Error)
        ensures
            r == (Error { span: *self, kind: ErrorKind::Msg(msg) }),
    {
        self.spanned(ErrorKind::Msg(msg))
    }
}

/// The number of bytes `b` in `s`.
pub open spec fn count_byte(s: Seq<u8>, b: u8) -> nat
    decreases s.len(),
{
    if s.len() == 0 {
        0
    } else {
        count_byte(s.drop_last(), b) + if s.last() == b {
            1nat
        } else {
            0nat
        }
    }
}

/// The bytes of `s` after its last newline, or all of it.
pub open spec fn after_last_newline(s: Seq<u8>) -> Seq<u8>
    decreases s.len(),
{
    if s.len() == 0 {
        seq![]
    } else if s.last() == NEWLINE {
        seq![]
    } else {
        after_last_newline(s.drop_last()).push(s.last())
    }
}

/// The length of the last line of `p`, as `str::lines` cuts lines: a final
/// newline ends the last line rather than starting an empty one, and a
/// carriage return just before a newline is not part of its line.
pub open spec fn last_line_len(p: Seq<u8>) -> nat {
    if p.len() == 0 {
        0
    } else if p.last() == NEWLINE {
        let seg = after_last_newline(p.drop_last());
        if seg.len() > 0 && seg.last() == CARRIAGE_RETURN {
            (seg.len() - 1) as nat
        } else {
            seg.len()
        }
    } else {
        after_last_newline(p).len()
    }
}

/// Where byte `start` of a source stands, counted from one: the line after
/// the newlines before it, and the column after the last line before it.
pub open spec fn spec_line_column(s: Seq<u8>, start: int) -> (nat, nat) {
    let p = s.subrange(0, start);
    (count_byte(p, NEWLINE) + 1, last_line_len(p) + 1)
}

proof fn lemma_counts_bounded(s: Seq<u8>)
    ensures
        count_byte(s, NEWLINE) <= s.len(),
        after_last_newline(s).len() <= s.len(),
    decreases s.len(),
{
    if s.len() > 0 {
        lemma_counts_bounded(s.drop_last());
    }
}

/// The line and column where byte `start` of `content` stands, counted
/// from one; `start` must be the start of a character or the end.
pub fn line_column(content: &str, start: usize) -> (r: (usize, usize))
    requires
        start < usize::MAX,
        start <= bytes(content).len(),
        vstd::utf8::is_char_boundary(bytes(content), start as int),
    ensures
        r.0 == spec_line_column(bytes(content), start as int).0,
        r.1 == spec_line_column(bytes(content), start as int).1,
{
    let b = content.as_bytes();
    let ghost s = bytes(content);
    let mut lines: usize = 0;
    let mut seg: usize = 0;
    let mut i: usize = 0;
    while i < start
        invariant
            b@ == s,
            0 <= i <= start <= s.len(),
            start < usize::MAX,
            lines == count_byte(s.subrange(0, i as int), NEWLINE),
            seg == after_last_newline(s.subrange(0, i as int)).len(),
            lines <= i,
            seg <= i,
        decreases start - i,
    {
        assert(s.subrange(0, i + 1).drop_last() =~= s.subrange(0, i as int));
        if b[i] == NEWLINE {
            lines += 1;
            seg = 0;
        } else {
            seg += 1;
        }
        i += 1;
    }
    let ghost p = s.subrange(0, start as int);
    let column = if start == 0 {
        0
    } else if b[start - 1] == NEWLINE {
        assert(p.drop_last() =~= s.subrange(0, start - 1));
        let mut k: usize = 0;
        let mut j: usize = start - 1;
        while j > 0 && b[j - 1] != NEWLINE
            invariant
                b@ == s,
                0 <= j <= start - 1,
                start <= s.len(),
                k == start - 1 - j,
                after_last_newline(s.subrange(0, start - 1)) == after_last_newline(s.subrange(0, j as int))
                    + s.subrange(j as int, start - 1),
            decreases j,
        {
            assert(s.subrange(0, j as int).drop_last() =~= s.subrange(0, j - 1));
            assert(s.subrange(j - 1, start - 1) =~= seq![s[j - 1]] + s.subrange(j as int, start - 1));
            k += 1;
            j -= 1;
        }
        proof {
            if j > 0 {
                assert(after_last_newline(s.subrange(0, j as int)) == Seq::<u8>::empty());
            } else {
                assert(s.subrange(0, 0) =~= Seq::<u8>::empty());
            }
            assert(after_last_newline(s.subrange(0, start - 1)) =~= s.subrange(j as int, start - 1));
        }
        if k > 0 && b[start - 2] == CARRIAGE_RETURN {
            k - 1
        } else {
            k
        }
    } else {
        seg
    };
    (lines + 1, column + 1)
}

/// Whether a byte of UTF-8 text begins a character rather than continuing
/// one.
pub open spec fn starts_char(b: u8) -> bool {
    b < 128 || b >= 192
}

/// The number of characters of the UTF-8 text `s`.
pub open spec fn char_count(s: Seq<u8>) -> nat
    decreases s.len(),
{
    if s.len() == 0 {
        0
    } else {
        char_count(s.drop_last()) + if starts_char(s.last()) {
            1nat
        } else {
            0nat
        }
    }
}

/// The line of `s` that starts at `start`, as `str::lines` yields it
/// (without its newline, and without a carriage return just before that
/// newline), and where the next line starts.
pub open spec fn line_at(s: Seq<u8>, start: int) -> (Seq<u8>, int) {
    match find_byte(s, start, NEWLINE) {
        Some(k) => {
            let raw = s.subrange(start, k);
            (
                if raw.len() > 0 && raw.last() == CARRIAGE_RETURN {
                    raw.drop_last()
                } else {
                    raw
                },
                k + 1,
            )
        },
        None => (s.subrange(start, s.len() as int), s.len() as int),
    }
}

/// Walking the lines of `s` from the one that starts at `start`, which is
/// line `n` counted from zero with `position` counted before it (each line
/// counts its characters and one more for its end): the first line at whose
/// end the count reaches `index`, by its number counted from one and its
/// text.
pub open spec fn locate_from(s: Seq<u8>, start: int, n: nat, position: nat, index: nat) -> Option<
    (nat, Seq<u8>),
>
    decreases s.len() - start,
{
    if start < 0 || start >= s.len() {
        None
    } else {
        let line = line_at(s, start).0;
        let next = line_at(s, start).1;
        let len = char_count(line) + 1;
        if len + position >= index {
            Some((n + 1, line))
        } else if next <= start || next > s.len() {
            None
        } else {
            locate_from(s, next, n + 1, position + len, index)
        }
    }
}

proof fn lemma_char_count_bounded(s: Seq<u8>)
    ensures
        char_count(s) <= s.len(),
    decreases s.len(),
{
    if s.len() > 0 {
        lemma_char_count_bounded(s.drop_last());
    }
}

/// The line that an error at `index` is shown with: the first line of
/// `input` at whose end the characters of it and the lines before it, each
/// line counted with one more for its end, reach `index`; its number,
/// counted from one, and its text. `None` where no line does.
pub fn locate_line(input: &str, index: usize) -> (r: Option<(usize, Vec<u8>)>)
    requires
        bytes(input).len() < usize::MAX,
    ensures
        match locate_from(bytes(input), 0, 0, 0, index as nat) {
            Some((n, line)) => r matches Some((m, v)) && m == n && v@ == line,
            None => r is None,
        },
{
    let b = input.as_bytes();
    let ghost s = bytes(input);
    let mut start: usize = 0;
    let mut n: usize = 0;
    let mut position: usize = 0;
    while start < b.len()
        invariant
            b@ == s,
            s == bytes(input),
            s.len() < usize::MAX,
            0 <= start <= s.len(),
            n <= start,
            position <= start,
            locate_from(s, start as int, n as nat, position as nat, index as nat) == locate_from(
                s,
                0,
                0,
                0,
                index as nat,
            ),
        decreases s.len() - start,
    {
        let mut k = start;
        let mut count: usize = 0;
        assert(s.subrange(start as int, start as int) =~= Seq::<u8>::empty());
        while k < b.len() && b[k] != NEWLINE
            invariant
                b@ == s,
                s.len() < usize::MAX,
                start <= k <= s.len(),
                count == char_count(s.subrange(start as int, k as int)),
                count <= k - start,
                find_byte(s, k as int, NEWLINE) == find_byte(s, start as int, NEWLINE),
            decreases s.len() - k,
        {
            assert(s.subrange(start as int, k + 1).drop_last() =~= s.subrange(start as int, k as int));
            if b[k] < 128 || b[k] >= 192 {
                count += 1;
            }
            k += 1;
        }
        let has_newline = k < b.len();
        let mut line_end = k;
        if has_newline && k > start && b[k - 1] == CARRIAGE_RETURN {
            assert(s.subrange(start as int, k as int).drop_last() =~= s.subrange(start as int, k - 1));
            line_end = k - 1;
            count = count - 1;
        }
        proof {
            lemma_char_count_bounded(s.subrange(start as int, line_end as int));
            if has_newline {
                assert(find_byte(s, k as int, NEWLINE) == Some(k as int));
            } else {
                assert(find_byte(s, k as int, NEWLINE) is None);
            }
            assert(line_at(s, start as int).0 =~= s.subrange(start as int, line_end as int));
        }
        let len = count + 1;
        assert(char_count(line_at(s, start as int).0) == count);
        if len + position >= index {
            return Some((n + 1, crate::text::copy_range(b, start, line_end)));
        }
        if !has_newline {
            assert(locate_from(s, s.len() as int, (n + 1) as nat, (position + len) as nat, index as nat) is None);
            return None;
        }
        position = position + len;
        n = n + 1;
        start = k + 1;
    }
    None
}

/// Where the line that ends at `e` starts: after the last newline before
/// `e`, or at the start of the text.
pub open spec fn line_start(s: Seq<u8>, e: int) -> int
    decreases e,
{
    if e <= 0 {
        0
    } else if s[e - 1] == NEWLINE {
        e
    } else {
        line_start(s, e - 1)
    }
}

/// The last two lines of the text before `start`, as `str::lines` yields
/// them from the end (a newline that ends the text starts no line): the
/// line the error stands on, and the one before it.
pub open spec fn lines_before(s: Seq<u8>, start: int) -> (Option<Seq<u8>>, Option<Seq<u8>>) {
    if start <= 0 {
        (None, None)
    } else {
        let q = if s[start - 1] == NEWLINE {
            start - 1
        } else {
            start
        };
        let c = line_start(s, q);
        (
            Some(s.subrange(c, q)),
            if c > 0 {
                Some(s.subrange(line_start(s, c - 1), c - 1))
            } else {
                None
            },
        )
    }
}

/// The rest of the line from `start` on, if any text follows.
pub open spec fn line_after(s: Seq<u8>, start: int) -> Option<Seq<u8>> {
    if start >= s.len() {
        None
    } else {
        match find_byte(s, start, NEWLINE) {
            Some(k) => Some(s.subrange(start, k)),
            None => Some(s.subrange(start, s.len() as int)),
        }
    }
}

/// A line as the report shows it: carriage returns dropped and each tab
/// four spaces.
pub open spec fn cleaned(s: Seq<u8>) -> Seq<u8>
    decreases s.len(),
{
    if s.len() == 0 {
        seq![]
    } else {
        cleaned(s.drop_last()) + if s.last() == CARRIAGE_RETURN {
            seq![]
        } else if s.last() == TAB {
            seq![SPACE, SPACE, SPACE, SPACE]
        } else {
            seq![s.last()]
        }
    }
}

pub const TAB: u8 = 9;

pub const SPACE: u8 = 32;

pub const CARET: u8 = 94;

/// `n` copies of the byte `b`.
pub open spec fn repeat(b: u8, n: nat) -> Seq<u8> {
    Seq::new(n, |i: int| b)
}

/// The text of an error message.
pub open spec fn message_bytes(kind: ErrorKind) -> Seq<u8> {
    match kind {
        ErrorKind::Custom(m) => bytes(m),
        ErrorKind::Msg(m) => string_bytes(m),
    }
}

/// The report of an error in the file at `path` whose text is `s`: the
/// place and message, underlined in red where `color` is set; the line
/// before the error's line, indented; the error's line after `> `; and a
/// caret under each byte of the span, indented to the span's start.
pub open spec fn spec_report(path: Seq<u8>, s: Seq<u8>, span: Span, message: Seq<u8>, color: bool) -> Seq<u8> {
    let cur_text = cur_part(s, span.start as int);
    report_head(path, s, span.start as int, message, color) + seq![NEWLINE] + report_context(
        s,
        span.start as int,
    ) + repeat(SPACE, 2 + char_count(cur_text)) + repeat(
        CARET,
        if span.end > span.start {
            (span.end - span.start) as nat
        } else {
            0
        },
    ) + seq![NEWLINE]
}

/// Where the line that ends at `e` starts.
fn find_line_start(b: &[u8], e: usize) -> (r: usize)
    requires
        e <= b@.len(),
    ensures
        r == line_start(b@, e as int),
        r <= e,
{
    let mut j = e;
    while j > 0 && b[j - 1] != NEWLINE
        invariant
            j <= e <= b@.len(),
            line_start(b@, e as int) == line_start(b@, j as int),
        decreases j,
    {
        j = j - 1;
    }
    j
}

/// Appends `s[from..to]` as the report shows it.
fn push_cleaned(out: &mut Vec<u8>, b: &[u8], from: usize, to: usize)
    requires
        from <= to <= b@.len(),
    ensures
        final(out)@ == old(out)@ + cleaned(b@.subrange(from as int, to as int)),
{
    let mut i = from;
    while i < to
        invariant
            from <= i <= to <= b@.len(),
            out@ == old(out)@ + cleaned(b@.subrange(from as int, i as int)),
        decreases to - i,
    {
        assert(b@.subrange(from as int, i + 1).drop_last() =~= b@.subrange(from as int, i as int));
        let c = b[i];
        if c == CARRIAGE_RETURN {
        } else if c == TAB {
            out.push(SPACE);
            out.push(SPACE);
            out.push(SPACE);
            out.push(SPACE);
        } else {
            out.push(c);
        }
        i = i + 1;
        assert(out@ =~= old(out)@ + cleaned(b@.subrange(from as int, i as int)));
    }
}

/// The number of characters in `out` from `from` on.
fn count_chars(out: &Vec<u8>, from: usize) -> (r: usize)
    requires
        from <= out@.len(),
    ensures
        r == char_count(out@.subrange(from as int, out@.len() as int)),
{
    let mut n: usize = 0;
    let mut i = from;
    while i < out.len()
        invariant
            from <= i <= out@.len(),
            n == char_count(out@.subrange(from as int, i as int)),
            n <= i - from,
        decreases out@.len() - i,
    {
        assert(out@.subrange(from as int, i + 1).drop_last() =~= out@.subrange(from as int, i as int));
        if out[i] < 128 || out[i] >= 192 {
            n = n + 1;
        }
        i = i + 1;
    }
    n
}

/// Appends `n` copies of `b`.
fn push_repeat(out: &mut Vec<u8>, b: u8, n: usize)
    ensures
        final(out)@ == old(out)@ + repeat(b, n as nat),
{
    let mut i: usize = 0;
    while i < n
        invariant
            0 <= i <= n,
            out@ == old(out)@ + repeat(b, i as nat),
        decreases n - i,
    {
        out.push(b);
        i = i + 1;
        assert(out@ =~= old(out)@ + repeat(b, i as nat));
    }
}

/// The report of `error` in the file at `path` whose text is `content`, as
/// the compiler prints it; `color` asks for the terminal's colors.
pub fn error_report(path: &str, content: &str, error: &Error, color: bool) -> (r: Vec<u8>)
    requires
        error.span.start < usize::MAX,
        error.span.start <= bytes(content).len(),
        bytes(content).len() <= usize::MAX / 8,
        vstd::utf8::is_char_boundary(bytes(content), error.span.start as int),
    ensures
        r@ == spec_report(bytes(path), bytes(content), error.span, message_bytes(error.kind), color),
{
    let mut out: Vec<u8> = Vec::new();
    push_head(&mut out, path, content, error, color);
    let ghost h = out@;
    let pad = push_context(&mut out, content.as_bytes(), error.span.start);
    let ghost c = out@;
    push_repeat(&mut out, SPACE, 2 + pad);
    let start = error.span.start;
    let end = error.span.end;
    let carets = if end > start {
        end - start
    } else {
        0
    };
    push_repeat(&mut out, CARET, carets);
    out.push(NEWLINE);
    proof {
        assert(out@ =~= spec_report(bytes(path), bytes(content), error.span, message_bytes(error.kind), color));
    }
    out
}

/// The head line of a report: place and message.
pub open spec fn report_head(path: Seq<u8>, s: Seq<u8>, start: int, message: Seq<u8>, color: bool) -> Seq<u8> {
    let (line, column) = spec_line_column(s, start);
    let place = place_text(path, line, column, message);
    if color {
        bytes("\x1b[91m\x1b[4m") + place + bytes("\x1b[0m")
    } else {
        place
    }
}

/// The line before the error's line, as the report shows it, if any.
pub open spec fn prev_part(s: Seq<u8>, start: int) -> Seq<u8> {
    match lines_before(s, start).1 {
        Some(p) => seq![SPACE, SPACE] + cleaned(p) + seq![NEWLINE],
        None => seq![],
    }
}

/// The error's line up to the error, as the report shows it.
pub open spec fn cur_part(s: Seq<u8>, start: int) -> Seq<u8> {
    match lines_before(s, start).0 {
        Some(c) => cleaned(c),
        None => seq![],
    }
}

/// The rest of the error's line, as the report shows it, if any.
pub open spec fn rest_part(s: Seq<u8>, start: int) -> Seq<u8> {
    match line_after(s, start) {
        Some(r) => cleaned(r) + seq![NEWLINE],
        None => seq![],
    }
}

/// The source lines of a report, before the carets.
pub open spec fn report_context(s: Seq<u8>, start: int) -> Seq<u8> {
    prev_part(s, start) + seq![62u8, SPACE] + cur_part(s, start) + rest_part(s, start)
}

/// The place and message of a report.
pub open spec fn place_text(path: Seq<u8>, line: nat, column: nat, message: Seq<u8>) -> Seq<u8> {
    path + seq![58u8] + decimal(line) + seq![58u8] + decimal(column) + seq![58u8, SPACE] + message
}

/// Appends the text of an error message.
fn push_message(out: &mut Vec<u8>, kind: &ErrorKind)
    ensures
        final(out)@ == old(out)@ + message_bytes(*kind),
{
    match kind {
        ErrorKind::Custom(m) => push_str(out, m),
        ErrorKind::Msg(m) => {
            let t = m.as_str();
            assert(t@ == m@);
            push_str(out, t);
        },
    }
}

/// Appends the place and message of a report.
fn push_place(out: &mut Vec<u8>, path: &str, line: usize, column: usize, kind: &ErrorKind)
    ensures
        final(out)@ == old(out)@ + place_text(bytes(path), line as nat, column as nat, message_bytes(*kind)),
{
    push_str(out, path);
    out.push(58);
    push_decimal(out, line as u64);
    out.push(58);
    push_decimal(out, column as u64);
    out.push(58);
    out.push(SPACE);
    push_message(out, kind);
    assert(out@ =~= old(out)@ + place_text(bytes(path), line as nat, column as nat, message_bytes(*kind)));
}

/// Appends the head line of a report.
fn push_head(out: &mut Vec<u8>, path: &str, content: &str, error: &Error, color: bool)
    requires
        error.span.start < usize::MAX,
        error.span.start <= bytes(content).len(),
        vstd::utf8::is_char_boundary(bytes(content), error.span.start as int),
    ensures
        final(out)@ == old(out)@ + report_head(bytes(path), bytes(content), error.span.start as int,
            message_bytes(error.kind), color) + seq![NEWLINE],
{
    let (line, column) = line_column(content, error.span.start);
    if color {
        push_str(out, "\x1b[91m\x1b[4m");
    }
    push_place(out, path, line, column, &error.kind);
    if color {
        push_str(out, "\x1b[0m");
    }
    out.push(NEWLINE);
    assert(out@ =~= old(out)@ + report_head(bytes(path), bytes(content), error.span.start as int,
        message_bytes(error.kind), color) + seq![NEWLINE]);
}

/// Appends the line before the error's line; gives where the error's line
/// starts and where its part before the error ends.
fn push_prev(out: &mut Vec<u8>, b: &[u8], start: usize) -> (r: (usize, usize))
    requires
        start <= b@.len(),
    ensures
        final(out)@ == old(out)@ + prev_part(b@, start as int),
        r.0 <= r.1 <= start,
        cleaned(b@.subrange(r.0 as int, r.1 as int)) == cur_part(b@, start as int),
{
    if start == 0 {
        assert(b@.subrange(0, 0) =~= Seq::<u8>::empty());
        assert(out@ =~= old(out)@ + prev_part(b@, start as int));
        return (0, 0);
    }
    let q = if b[start - 1] == NEWLINE {
        start - 1
    } else {
        start
    };
    let c = find_line_start(b, q);
    if c > 0 {
        let pc = find_line_start(b, c - 1);
        out.push(SPACE);
        out.push(SPACE);
        push_cleaned(out, b, pc, c - 1);
        out.push(NEWLINE);
    }
    assert(out@ =~= old(out)@ + prev_part(b@, start as int));
    (c, q)
}

/// Appends the rest of the error's line.
fn push_rest(out: &mut Vec<u8>, b: &[u8], start: usize)
    requires
        start <= b@.len(),
    ensures
        final(out)@ == old(out)@ + rest_part(b@, start as int),
{
    let ghost s = b@;
    if start < b.len() {
        let mut k = start;
        while k < b.len() && b[k] != NEWLINE
            invariant
                start <= k <= b@.len(),
                b@ == s,
                find_byte(s, start as int, NEWLINE) == find_byte(s, k as int, NEWLINE),
            decreases b@.len() - k,
        {
            k = k + 1;
        }
        push_cleaned(out, b, start, k);
        out.push(NEWLINE);
    }
    assert(out@ =~= old(out)@ + rest_part(s, start as int));
}

/// Appends the source lines of a report; gives the number of characters
/// of the error's line before the error.
fn push_context(out: &mut Vec<u8>, b: &[u8], start: usize) -> (pad: usize)
    requires
        start <= b@.len(),
        b@.len() <= usize::MAX / 8,
    ensures
        final(out)@ == old(out)@ + report_context(b@, start as int),
        pad == char_count(cur_part(b@, start as int)),
        pad <= usize::MAX / 2,
{
    let (cur_from, cur_to) = push_prev(out, b, start);
    let ghost before_cur = out@;
    out.push(62);
    out.push(SPACE);
    let cur_at = out.len();
    push_cleaned(out, b, cur_from, cur_to);
    proof {
        lemma_cleaned_len(b@.subrange(cur_from as int, cur_to as int));
        lemma_char_count_bounded(cur_part(b@, start as int));
    }
    assert(out@.subrange(cur_at as int, out@.len() as int) =~= cur_part(b@, start as int));
    let pad = count_chars(out, cur_at);
    push_rest(out, b, start);
    assert(out@ =~= old(out)@ + report_context(b@, start as int));
    pad
}

/// Cleaning a line at most quadruples it.
proof fn lemma_cleaned_len(s: Seq<u8>)
    ensures
        cleaned(s).len() <= 4 * s.len(),
    decreases s.len(),
{
    if s.len() > 0 {
        lemma_cleaned_len(s.drop_last());
    }
}

} // verus!
