//! Source editing helpers for Interval.
//!
//! Span-based text surgery. Every function takes the source text and the
//! outline of its parse (block names and the spans an edit reads) and
//! returns the modified source. Spans are byte offsets into the source;
//! the edits work on its characters.

use vstd::prelude::*;
use vstd::string::*;
use crate::error::Span;
use crate::text::{str_chars, decimal_text, decimal_string};

verus! {

// ── Errors ───────────────────────────────────────────────────────────

/// Error type for source editing operations.
#[derive(Debug, Clone)]
pub enum EditError {
    /// Target block not found by name.
    BlockNotFound {
        /// Block name.
        name: String,
    },
    /// Step index out of range.
    StepIndexOutOfRange {
        /// Requested index.
        index: usize,
        /// Number of steps.
        count: usize,
    },
    /// Block has no source span (synthetic or missing).
    NoSpan {
        /// Block name.
        name: String,
    },
    /// The edit produced invalid source.
    InvalidResult {
        /// What is wrong.
        message: String,
    },
    /// Parse error on input source.
    ParseError {
        /// What is wrong.
        message: String,
    },
    /// Header parameter not found.
    HeaderParamNotFound {
        /// Parameter name.
        param: String,
    },
}

/// What an edit error holds.
pub enum EditErrorModel {
    /// Target block not found by name.
    BlockNotFound { name: Seq<char> },
    /// Step index out of range.
    StepIndexOutOfRange { index: usize, count: usize },
    /// Block has no source span.
    NoSpan { name: Seq<char> },
    /// The edit produced invalid source.
    InvalidResult { message: Seq<char> },
    /// Parse error on input source.
    ParseError { message: Seq<char> },
    /// Header parameter not found.
    HeaderParamNotFound { param: Seq<char> },
}

impl View for EditError {
    type V = EditErrorModel;

    open spec fn view(&self) -> EditErrorModel {
        match self {
            EditError::BlockNotFound { name } => EditErrorModel::BlockNotFound { name: name@ },
            EditError::StepIndexOutOfRange { index, count } => EditErrorModel::StepIndexOutOfRange {
                index: *index,
                count: *count,
            },
            EditError::NoSpan { name } => EditErrorModel::NoSpan { name: name@ },
            EditError::InvalidResult { message } => EditErrorModel::InvalidResult {
                message: message@,
            },
            EditError::ParseError { message } => EditErrorModel::ParseError { message: message@ },
            EditError::HeaderParamNotFound { param } => EditErrorModel::HeaderParamNotFound {
                param: param@,
            },
        }
    }
}

impl EditError {
    /// The text of the message, as the error displays it.
    pub open spec fn message_text(&self) -> Seq<char> {
        match self {
            EditError::BlockNotFound { name } => "block '"@ + name@ + "' not found"@,
            EditError::StepIndexOutOfRange { index, count } => "step index "@ + decimal_text(
                *index as nat,
            ) + " out of range (pattern has "@ + decimal_text(*count as nat) + " steps)"@,
            EditError::NoSpan { name } => "block '"@ + name@ + "' has no source span"@,
            EditError::InvalidResult { message } => "edit produced invalid source: "@ + message@,
            EditError::ParseError { message } => "parse error: "@ + message@,
            EditError::HeaderParamNotFound { param } => "header parameter '"@ + param@
                + "' not found in source"@,
        }
    }

    /// Render the message text.
    pub fn message(&self) -> (r: String)
        ensures
            r@ == self.message_text(),
    {
        match self {
            EditError::BlockNotFound { name } => {
                let mut s = String::from_str("block '");
                s.append(name.as_str());
                s.append("' not found");
                s
            },
            EditError::StepIndexOutOfRange { index, count } => {
                let mut s = String::from_str("step index ");
                let i = decimal_string(*index as u64);
                s.append(i.as_str());
                s.append(" out of range (pattern has ");
                let c = decimal_string(*count as u64);
                s.append(c.as_str());
                s.append(" steps)");
                s
            },
            EditError::NoSpan { name } => {
                let mut s = String::from_str("block '");
                s.append(name.as_str());
                s.append("' has no source span");
                s
            },
            EditError::InvalidResult { message } => {
                let mut s = String::from_str("edit produced invalid source: ");
                s.append(message.as_str());
                s
            },
            EditError::ParseError { message } => {
                let mut s = String::from_str("parse error: ");
                s.append(message.as_str());
                s
            },
            EditError::HeaderParamNotFound { param } => {
                let mut s = String::from_str("header parameter '");
                s.append(param.as_str());
                s.append("' not found in source");
                s
            },
        }
    }
}

/// `r` is the outcome `spec` describes: the edited text, or the error.
pub open spec fn edit_result_matches(
    r: Result<String, EditError>,
    spec: Result<Seq<char>, EditErrorModel>,
) -> bool {
    match spec {
        Ok(t) => r matches Ok(x) && x@ == t,
        Err(m) => r matches Err(e) && e@ == m,
    }
}

// ── The outline of a parsed program ──────────────────────────────────

/// A block of a parsed program, as the edits and the editor completion see it.
#[derive(Debug, Clone)]
pub enum OutlineBlock {
    /// A `@pattern` block: its name, span, step count and unit, and, for a
    /// body of step lines, the span of each step line (`None` for an
    /// expression body).
    Pattern {
        /// Pattern name.
        name: String,
        /// Span of the whole block.
        span: Option<Span>,
        /// Step count.
        step_count: u32,
        /// Numerator of the step unit.
        unit_num: u32,
        /// Denominator of the step unit.
        unit_den: u32,
        /// Spans of the step lines.
        steps: Option<Vec<Option<Span>>>,
    },
    /// A `@track` block: its name and span.
    Track {
        /// Track name.
        name: String,
        /// Span of the whole block.
        span: Option<Span>,
    },
    /// A `@harmony` block and its span.
    Harmony {
        /// Span of the whole block.
        span: Option<Span>,
    },
    /// A `@drummap` block and its span.
    DrumMap {
        /// Span of the whole block.
        span: Option<Span>,
    },
    /// A `@scale` block.
    Scale,
    /// Any other block.
    Other,
}

/// What the edits and the editor completion read of a parsed program: the
/// header's span and the blocks.
#[derive(Debug, Clone)]
pub struct SourceOutline {
    /// Span of the global header.
    pub header_span: Option<Span>,
    /// The blocks, in source order.
    pub blocks: Vec<OutlineBlock>,
}

// ── Characters and byte offsets ──────────────────────────────────────

/// Number of bytes UTF-8 takes for `c`.
pub open spec fn utf8_width(c: char) -> nat {
    let u = c as u32;
    if u < 0x80 {
        1
    } else if u < 0x800 {
        2
    } else if u < 0x10000 {
        3
    } else {
        4
    }
}

/// Bytes taken by the first `k` characters of `s`.
pub open spec fn prefix_bytes(s: Seq<char>, k: int) -> nat
    decreases k,
{
    if k <= 0 {
        0
    } else {
        prefix_bytes(s, k - 1) + utf8_width(s[k - 1])
    }
}

/// The character position, from `k` on, at which byte offset `b` falls.
pub open spec fn char_index_from(s: Seq<char>, b: int, k: int) -> Option<int>
    decreases s.len() + 1 - k,
{
    if k < 0 || k > s.len() {
        None
    } else if prefix_bytes(s, k) == b {
        Some(k)
    } else if prefix_bytes(s, k) > b {
        None
    } else {
        char_index_from(s, b, k + 1)
    }
}

/// The character position of byte offset `b`, when `b` lies between characters.
pub open spec fn char_index(s: Seq<char>, b: int) -> Option<int> {
    char_index_from(s, b, 0)
}

/// The character position of byte offset `b` (0 when it is not one).
pub open spec fn cidx(s: Seq<char>, b: int) -> int {
    match char_index(s, b) {
        Some(k) => k,
        None => 0,
    }
}

/// A span whose ends lie between characters of `s`, in order.
pub open spec fn span_fits(s: Seq<char>, sp: Span) -> bool {
    &&& char_index(s, sp.start as int) is Some
    &&& char_index(s, sp.end as int) is Some
    &&& sp.start <= sp.end
}

/// Every span of the outline fits the source.
pub open spec fn outline_fits(s: Seq<char>, o: SourceOutline) -> bool {
    &&& (o.header_span matches Some(h) ==> span_fits(s, h))
    &&& forall|i: int|
        0 <= i < o.blocks@.len() ==> match #[trigger] o.blocks@[i] {
            OutlineBlock::Pattern { steps: Some(v), .. } => forall|j: int|
                0 <= j < v@.len() ==> (#[trigger] v@[j] matches Some(sp) ==> span_fits(s, sp)),
            OutlineBlock::Track { span: Some(sp), .. } => span_fits(s, sp),
            _ => true,
        }
}

proof fn lemma_char_index_from(s: Seq<char>, b: int, k: int)
    ensures
        char_index_from(s, b, k) matches Some(p) ==> k <= p <= s.len() && prefix_bytes(s, p)
            == b,
    decreases s.len() + 1 - k,
{
    if 0 <= k <= s.len() && prefix_bytes(s, k) < b {
        lemma_char_index_from(s, b, k + 1);
    }
}

pub(crate) fn char_width(c: char) -> (r: u64)
    ensures
        r == utf8_width(c),
{
    let u = c as u32;
    if u < 0x80 {
        1
    } else if u < 0x800 {
        2
    } else if u < 0x10000 {
        3
    } else {
        4
    }
}

// ── Lines and whitespace ─────────────────────────────────────────────

/// Whether `c` is white space (the Unicode `White_Space` property).
pub open spec fn is_ws(c: char) -> bool {
    ||| ('\u{9}' <= c && c <= '\u{d}')
    ||| c == ' '
    ||| c == '\u{85}'
    ||| c == '\u{a0}'
    ||| c == '\u{1680}'
    ||| ('\u{2000}' <= c && c <= '\u{200a}')
    ||| c == '\u{2028}'
    ||| c == '\u{2029}'
    ||| c == '\u{202f}'
    ||| c == '\u{205f}'
    ||| c == '\u{3000}'
}

fn is_whitespace(c: char) -> (r: bool)
    ensures
        r == is_ws(c),
{
    ('\u{9}' <= c && c <= '\u{d}') || c == ' ' || c == '\u{85}' || c == '\u{a0}' || c == '\u{1680}'
        || ('\u{2000}' <= c && c <= '\u{200a}') || c == '\u{2028}' || c == '\u{2029}' || c
        == '\u{202f}' || c == '\u{205f}' || c == '\u{3000}'
}

/// Start of the line holding position `p`: just after the last newline
/// before `p`, or 0.
pub open spec fn line_start(s: Seq<char>, p: int) -> int
    decreases p,
{
    if p <= 0 {
        0
    } else if s[p - 1] == '\n' {
        p
    } else {
        line_start(s, p - 1)
    }
}

/// The first newline at or after `p`.
pub open spec fn next_newline(s: Seq<char>, p: int) -> Option<int>
    decreases s.len() - p,
{
    if p < 0 || p >= s.len() {
        None
    } else if s[p] == '\n' {
        Some(p)
    } else {
        next_newline(s, p + 1)
    }
}

/// The first position in `from..to` that is not white space, or `to`.
pub open spec fn skip_ws(s: Seq<char>, from: int, to: int) -> int
    decreases to - from,
{
    if from >= to {
        to
    } else if !is_ws(s[from]) {
        from
    } else {
        skip_ws(s, from + 1, to)
    }
}

/// The first position in `from..to` holding white space, or `to`.
pub open spec fn find_ws(s: Seq<char>, from: int, to: int) -> int
    decreases to - from,
{
    if from >= to {
        to
    } else if is_ws(s[from]) {
        from
    } else {
        find_ws(s, from + 1, to)
    }
}

proof fn lemma_line_start(s: Seq<char>, p: int)
    requires
        0 <= p <= s.len(),
    ensures
        0 <= line_start(s, p) <= p,
    decreases p,
{
    if p > 0 && s[p - 1] != '\n' {
        lemma_line_start(s, p - 1);
    }
}

proof fn lemma_next_newline(s: Seq<char>, p: int)
    ensures
        next_newline(s, p) matches Some(q) ==> p <= q < s.len() && s[q] == '\n',
    decreases s.len() - p,
{
    if 0 <= p < s.len() && s[p] != '\n' {
        lemma_next_newline(s, p + 1);
    }
}

proof fn lemma_skip_ws(s: Seq<char>, from: int, to: int)
    requires
        from <= to,
    ensures
        from <= skip_ws(s, from, to) <= to,
        from <= find_ws(s, from, to) <= to,
    decreases to - from,
{
    if from < to {
        lemma_skip_ws(s, from + 1, to);
    }
}

fn line_start_of(s: &[char], p: usize) -> (r: usize)
    requires
        p <= s@.len(),
    ensures
        r == line_start(s@, p as int),
        r <= p,
{
    let mut i: usize = p;
    while i > 0
        invariant
            i <= p <= s@.len(),
            line_start(s@, p as int) == line_start(s@, i as int),
        decreases i,
    {
        if s[i - 1] == '\n' {
            return i;
        }
        i = i - 1;
    }
    0
}

fn next_newline_of(s: &[char], p: usize) -> (r: Option<usize>)
    ensures
        match next_newline(s@, p as int) {
            Some(q) => r == Some(q as usize) && p <= q < s@.len(),
            None => r is None,
        },
{
    proof {
        lemma_next_newline(s@, p as int);
    }
    let mut i: usize = p;
    while i < s.len()
        invariant
            p <= i,
            next_newline(s@, p as int) == next_newline(s@, i as int),
        decreases s@.len() - i,
    {
        if s[i] == '\n' {
            return Some(i);
        }
        i = i + 1;
    }
    None
}

fn skip_ws_of(s: &[char], from: usize, to: usize) -> (r: usize)
    requires
        from <= to <= s@.len(),
    ensures
        r == skip_ws(s@, from as int, to as int),
        from <= r <= to,
{
    proof {
        lemma_skip_ws(s@, from as int, to as int);
    }
    let mut i: usize = from;
    while i < to
        invariant
            from <= i <= to <= s@.len(),
            skip_ws(s@, from as int, to as int) == skip_ws(s@, i as int, to as int),
        decreases to - i,
    {
        if !is_whitespace(s[i]) {
            return i;
        }
        i = i + 1;
    }
    to
}

fn find_ws_of(s: &[char], from: usize, to: usize) -> (r: usize)
    requires
        from <= to <= s@.len(),
    ensures
        r == find_ws(s@, from as int, to as int),
        from <= r <= to,
{
    proof {
        lemma_skip_ws(s@, from as int, to as int);
    }
    let mut i: usize = from;
    while i < to
        invariant
            from <= i <= to <= s@.len(),
            find_ws(s@, from as int, to as int) == find_ws(s@, i as int, to as int),
        decreases to - i,
    {
        if is_whitespace(s[i]) {
            return i;
        }
        i = i + 1;
    }
    to
}

/// `a`, then `mid`, then `b`, as one string.
fn splice(a: &str, mid: &str, b: &str) -> (r: String)
    ensures
        r@ == a@ + mid@ + b@,
{
    let mut r = String::from_str(a);
    r.append(mid);
    r.append(b);
    r
}

// ── Finding blocks and steps ─────────────────────────────────────────

/// The first pattern block named `name`, from block `i` on.
pub open spec fn pattern_index(blocks: Seq<OutlineBlock>, name: Seq<char>, i: int) -> Option<int>
    decreases blocks.len() - i,
{
    if i < 0 || i >= blocks.len() {
        None
    } else {
        match blocks[i] {
            OutlineBlock::Pattern { name: n, .. } => if n@ == name {
                Some(i)
            } else {
                pattern_index(blocks, name, i + 1)
            },
            _ => pattern_index(blocks, name, i + 1),
        }
    }
}

/// The first track block named `name`, from block `i` on.
pub open spec fn track_index(blocks: Seq<OutlineBlock>, name: Seq<char>, i: int) -> Option<int>
    decreases blocks.len() - i,
{
    if i < 0 || i >= blocks.len() {
        None
    } else {
        match blocks[i] {
            OutlineBlock::Track { name: n, .. } => if n@ == name {
                Some(i)
            } else {
                track_index(blocks, name, i + 1)
            },
            _ => track_index(blocks, name, i + 1),
        }
    }
}

/// The step spans of pattern `name`, or the error: the pattern is missing,
/// or has an expression body (the message ends with `body_msg`).
pub open spec fn spec_pattern_steps(
    blocks: Seq<OutlineBlock>,
    name: Seq<char>,
    body_msg: Seq<char>,
) -> Result<Seq<Option<Span>>, EditErrorModel> {
    match pattern_index(blocks, name, 0) {
        None => Err(EditErrorModel::BlockNotFound { name }),
        Some(i) => match blocks[i] {
            OutlineBlock::Pattern { steps: Some(v), .. } => Ok(v@),
            _ => Err(EditErrorModel::ParseError { message: "pattern '"@ + name + body_msg }),
        },
    }
}

/// The span of existing step `index` of pattern `name`, or the error.
pub open spec fn spec_step_span(blocks: Seq<OutlineBlock>, name: Seq<char>, index: usize) -> Result<
    Span,
    EditErrorModel,
> {
    match spec_pattern_steps(blocks, name, "' uses expression body"@) {
        Err(e) => Err(e),
        Ok(v) => if index >= v.len() {
            Err(EditErrorModel::StepIndexOutOfRange { index, count: v.len() as usize })
        } else {
            match v[index as int] {
                Some(sp) => Ok(sp),
                None => Err(EditErrorModel::NoSpan { name }),
            }
        },
    }
}

proof fn lemma_pattern_index(blocks: Seq<OutlineBlock>, name: Seq<char>, i: int)
    ensures
        pattern_index(blocks, name, i) matches Some(k) ==> i <= k < blocks.len()
            && blocks[k] is Pattern,
    decreases blocks.len() - i,
{
    if 0 <= i < blocks.len() {
        lemma_pattern_index(blocks, name, i + 1);
    }
}

proof fn lemma_track_index(blocks: Seq<OutlineBlock>, name: Seq<char>, i: int)
    ensures
        track_index(blocks, name, i) matches Some(k) ==> i <= k < blocks.len()
            && blocks[k] is Track,
    decreases blocks.len() - i,
{
    if 0 <= i < blocks.len() {
        lemma_track_index(blocks, name, i + 1);
    }
}

fn find_pattern(blocks: &Vec<OutlineBlock>, name: &str) -> (r: Option<usize>)
    ensures
        match pattern_index(blocks@, name@, 0) {
            Some(k) => r matches Some(x) && x as int == k && k < blocks@.len() && blocks@[k] is Pattern,
            None => r is None,
        },
{
    proof {
        lemma_pattern_index(blocks@, name@, 0);
    }
    let mut i: usize = 0;
    while i < blocks.len()
        invariant
            i <= blocks@.len(),
            pattern_index(blocks@, name@, 0) == pattern_index(blocks@, name@, i as int),
        decreases blocks@.len() - i,
    {
        match &blocks[i] {
            OutlineBlock::Pattern { name: n, .. } => {
                if crate::text::str_eq(n.as_str(), name) {
                    return Some(i);
                }
            },
            _ => {},
        }
        i = i + 1;
    }
    None
}

fn find_track(blocks: &Vec<OutlineBlock>, name: &str) -> (r: Option<usize>)
    ensures
        match track_index(blocks@, name@, 0) {
            Some(k) => r matches Some(x) && x as int == k && k < blocks@.len() && blocks@[k] is Track,
            None => r is None,
        },
{
    proof {
        lemma_track_index(blocks@, name@, 0);
    }
    let mut i: usize = 0;
    while i < blocks.len()
        invariant
            i <= blocks@.len(),
            track_index(blocks@, name@, 0) == track_index(blocks@, name@, i as int),
        decreases blocks@.len() - i,
    {
        match &blocks[i] {
            OutlineBlock::Track { name: n, .. } => {
                if crate::text::str_eq(n.as_str(), name) {
                    return Some(i);
                }
            },
            _ => {},
        }
        i = i + 1;
    }
    None
}

/// The step spans of pattern `name`, or the error (`insert` picks the
/// message for an expression body).
fn pattern_steps<'a>(blocks: &'a Vec<OutlineBlock>, name: &str, insert: bool) -> (r: Result<
    &'a Vec<Option<Span>>,
    EditError,
>)
    ensures
        match spec_pattern_steps(
            blocks@,
            name@,
            if insert {
                "' uses expression body, not step lines"@
            } else {
                "' uses expression body"@
            },
        ) {
            Ok(v) => {
                &&& (r matches Ok(x) && x@ == v)
                &&& (pattern_index(blocks@, name@, 0) matches Some(k) && (blocks@[k] matches OutlineBlock::Pattern {
                    steps: Some(w),
                    ..
                } && w@ == v))
            },
            Err(m) => r matches Err(e) && e@ == m,
        },
{
    match find_pattern(blocks, name) {
        None => Err(EditError::BlockNotFound { name: String::from_str(name) }),
        Some(k) => match &blocks[k] {
            OutlineBlock::Pattern { steps: Some(v), .. } => Ok(v),
            _ => {
                let mut message = String::from_str("pattern '");
                message.append(name);
                if insert {
                    message.append("' uses expression body, not step lines");
                } else {
                    message.append("' uses expression body");
                }
                Err(EditError::ParseError { message })
            },
        },
    }
}

/// The span of existing step `index` of pattern `name`, or the error.
fn step_span(blocks: &Vec<OutlineBlock>, name: &str, index: usize) -> (r: Result<Span, EditError>)
    ensures
        match spec_step_span(blocks@, name@, index) {
            Ok(sp) => {
                &&& r == Ok::<Span, EditError>(sp)
                &&& (pattern_index(blocks@, name@, 0) matches Some(k) && (blocks@[k] matches OutlineBlock::Pattern {
                    steps: Some(w),
                    ..
                } && w@[index as int] == Some(sp)))
            },
            Err(m) => r matches Err(e) && e@ == m,
        },
{
    let steps = match pattern_steps(blocks, name, false) {
        Ok(v) => v,
        Err(e) => return Err(e),
    };
    if index >= steps.len() {
        return Err(EditError::StepIndexOutOfRange { index, count: steps.len() });
    }
    match steps[index] {
        Some(sp) => Ok(sp),
        None => Err(EditError::NoSpan { name: String::from_str(name) }),
    }
}

pub(crate) proof fn lemma_prefix_bytes_monotone(s: Seq<char>, i: int, j: int)
    requires
        0 <= i <= j <= s.len(),
    ensures
        prefix_bytes(s, i) + (j - i) <= prefix_bytes(s, j),
        prefix_bytes(s, j) <= prefix_bytes(s, i) + 4 * (j - i),
    decreases j - i,
{
    if i < j {
        lemma_prefix_bytes_monotone(s, i, j - 1);
    }
}

/// The character positions of a fitting span's ends are in order and within the text.
proof fn lemma_span_chars(s: Seq<char>, sp: Span)
    requires
        span_fits(s, sp),
    ensures
        0 <= cidx(s, sp.start as int) <= cidx(s, sp.end as int) <= s.len(),
        char_index(s, sp.start as int) == Some(cidx(s, sp.start as int)),
        char_index(s, sp.end as int) == Some(cidx(s, sp.end as int)),
{
    lemma_char_index_from(s, sp.start as int, 0);
    lemma_char_index_from(s, sp.end as int, 0);
    let a = cidx(s, sp.start as int);
    let b = cidx(s, sp.end as int);
    if a > b {
        lemma_prefix_bytes_monotone(s, b, a);
    }
}

/// The position of a fitting span's start or end, in characters.
fn span_char(s: &[char], b: usize) -> (r: usize)
    requires
        char_index(s@, b as int) is Some,
    ensures
        r == cidx(s@, b as int),
        r <= s@.len(),
{
    match byte_to_char_wide(s, b as u128) {
        Some(k) => k,
        None => 0,
    }
}

// ── Step edits ───────────────────────────────────────────────────────

/// The source with step `index` of pattern `name` replaced by `new_text`,
/// keeping the white space that leads the step's span.
pub open spec fn spec_replace_step(
    s: Seq<char>,
    blocks: Seq<OutlineBlock>,
    name: Seq<char>,
    index: usize,
    new_text: Seq<char>,
) -> Result<Seq<char>, EditErrorModel> {
    match spec_step_span(blocks, name, index) {
        Err(e) => Err(e),
        Ok(sp) => {
            let start = step_text_start(s, sp);
            let b = cidx(s, sp.end as int);
            Ok(s.subrange(0, start) + new_text + s.subrange(b, s.len() as int))
        },
    }
}

/// Where the text of the step spanning `sp` begins: past the white space
/// that leads the span, unless the span holds nothing else.
pub open spec fn step_text_start(s: Seq<char>, sp: Span) -> int {
    let a = cidx(s, sp.start as int);
    let b = cidx(s, sp.end as int);
    let c = skip_ws(s, a, b);
    if c < b {
        c
    } else {
        a
    }
}

/// The text that step `index` of pattern `name` holds in the source: the
/// part of `replace_step` would overwrite.
pub open spec fn spec_step_text(
    s: Seq<char>,
    blocks: Seq<OutlineBlock>,
    name: Seq<char>,
    index: usize,
) -> Seq<char> {
    match spec_step_span(blocks, name, index) {
        Ok(sp) => s.subrange(step_text_start(s, sp), cidx(s, sp.end as int)),
        Err(_) => Seq::empty(),
    }
}

/// Replacing a step by the text it already holds gives the source back.
pub proof fn lemma_replace_step_with_own_text(
    s: Seq<char>,
    o: SourceOutline,
    name: Seq<char>,
    index: usize,
)
    requires
        outline_fits(s, o),
        spec_step_span(o.blocks@, name, index) is Ok,
    ensures
        spec_replace_step(s, o.blocks@, name, index, spec_step_text(s, o.blocks@, name, index))
            == Ok::<Seq<char>, EditErrorModel>(s),
{
    lemma_pattern_index(o.blocks@, name, 0);
    lemma_step_span_fits(s, o, name, index);
    let sp = spec_step_span(o.blocks@, name, index)->Ok_0;
    lemma_span_chars(s, sp);
    let a = cidx(s, sp.start as int);
    let b = cidx(s, sp.end as int);
    lemma_skip_ws(s, a, b);
    let start = step_text_start(s, sp);
    assert(s.subrange(0, start) + s.subrange(start, b) + s.subrange(b, s.len() as int) =~= s);
}

proof fn lemma_step_span_fits(s: Seq<char>, o: SourceOutline, name: Seq<char>, index: usize)
    requires
        outline_fits(s, o),
        spec_step_span(o.blocks@, name, index) is Ok,
        pattern_index(o.blocks@, name, 0) matches Some(k) && (o.blocks@[k] matches OutlineBlock::Pattern {
            steps: Some(w),
            ..
        } && w@[index as int] == Some(spec_step_span(o.blocks@, name, index)->Ok_0)),
    ensures
        span_fits(s, spec_step_span(o.blocks@, name, index)->Ok_0),
{
    let k = pattern_index(o.blocks@, name, 0)->Some_0;
    lemma_pattern_index(o.blocks@, name, 0);
    let b = o.blocks@[k];
    match b {
        OutlineBlock::Pattern { steps: Some(w), .. } => {
            assert(0 <= index < w@.len());
            assert(w@[index as int] matches Some(sp) ==> span_fits(s, sp));
        },
        _ => {},
    }
}

/// Replace a step at the given index in a named pattern with new text.
fn replace_step_spliced(
    source: &str,
    outline: &SourceOutline,
    pattern_name: &str,
    index: usize,
    new_text: &str,
) -> (r: Result<String, EditError>)
    requires
        outline_fits(source@, *outline),
    ensures
        edit_result_matches(
            r,
            spec_replace_step(source@, outline.blocks@, pattern_name@, index, new_text@),
        ),
{
    let sp = match step_span(&outline.blocks, pattern_name, index) {
        Ok(sp) => sp,
        Err(e) => return Err(e),
    };
    proof {
        lemma_step_span_fits(source@, *outline, pattern_name@, index);
        lemma_span_chars(source@, sp);
    }
    let chars = str_chars(source);
    let a = span_char(&chars, sp.start);
    let b = span_char(&chars, sp.end);
    let c = skip_ws_of(&chars, a, b);
    let start = if c < b {
        c
    } else {
        a
    };
    let n = chars.len();
    Ok(splice(source.substring_char(0, start), new_text, source.substring_char(b, n)))
}

/// The source without the whole line holding step `index` of pattern
/// `name`, its newline included.
pub open spec fn spec_remove_step(
    s: Seq<char>,
    blocks: Seq<OutlineBlock>,
    name: Seq<char>,
    index: usize,
) -> Result<Seq<char>, EditErrorModel> {
    match spec_step_span(blocks, name, index) {
        Err(e) => Err(e),
        Ok(sp) => {
            let ls = line_start(s, cidx(s, sp.start as int));
            let le = match next_newline(s, ls) {
                Some(q) => q + 1,
                None => s.len() as int,
            };
            Ok(s.subrange(0, ls) + s.subrange(le, s.len() as int))
        },
    }
}

/// Remove a step at the given index from a named pattern.
fn remove_step_spliced(source: &str, outline: &SourceOutline, pattern_name: &str, index: usize) -> (r:
    Result<String, EditError>)
    requires
        outline_fits(source@, *outline),
    ensures
        edit_result_matches(r, spec_remove_step(source@, outline.blocks@, pattern_name@, index)),
{
    let sp = match step_span(&outline.blocks, pattern_name, index) {
        Ok(sp) => sp,
        Err(e) => return Err(e),
    };
    proof {
        lemma_step_span_fits(source@, *outline, pattern_name@, index);
        lemma_span_chars(source@, sp);
    }
    let chars = str_chars(source);
    let n = chars.len();
    let a = span_char(&chars, sp.start);
    let ls = line_start_of(&chars, a);
    let le = match next_newline_of(&chars, ls) {
        Some(q) => q + 1,
        None => n,
    };
    let mut out = String::from_str(source.substring_char(0, ls));
    out.append(source.substring_char(le, n));
    Ok(out)
}

/// The source with `[annotation]` added at the end of the line of step
/// `index` of pattern `name` (at the end of the step's span when no newline follows).
pub open spec fn spec_set_annotation(
    s: Seq<char>,
    blocks: Seq<OutlineBlock>,
    name: Seq<char>,
    index: usize,
    annotation: Seq<char>,
) -> Result<Seq<char>, EditErrorModel> {
    match spec_step_span(blocks, name, index) {
        Err(e) => Err(e),
        Ok(sp) => {
            let a = cidx(s, sp.start as int);
            let le = match next_newline(s, a) {
                Some(q) => q,
                None => cidx(s, sp.end as int),
            };
            Ok(s.subrange(0, le) + ("["@ + annotation + "]"@) + s.subrange(le, s.len() as int))
        },
    }
}

/// Set or add an annotation on a step in a named pattern.
///
/// `annotation` should be the full annotation text (e.g., "vel:110", "gate:0.8").
fn set_annotation_spliced(
    source: &str,
    outline: &SourceOutline,
    pattern_name: &str,
    step_index: usize,
    annotation: &str,
) -> (r: Result<String, EditError>)
    requires
        outline_fits(source@, *outline),
    ensures
        edit_result_matches(
            r,
            spec_set_annotation(source@, outline.blocks@, pattern_name@, step_index, annotation@),
        ),
{
    let sp = match step_span(&outline.blocks, pattern_name, step_index) {
        Ok(sp) => sp,
        Err(e) => return Err(e),
    };
    proof {
        lemma_step_span_fits(source@, *outline, pattern_name@, step_index);
        lemma_span_chars(source@, sp);
    }
    let chars = str_chars(source);
    let n = chars.len();
    let a = span_char(&chars, sp.start);
    let le = match next_newline_of(&chars, a) {
        Some(q) => q,
        None => span_char(&chars, sp.end),
    };
    let mut text = String::from_str("[");
    text.append(annotation);
    text.append("]");
    Ok(splice(source.substring_char(0, le), text.as_str(), source.substring_char(le, n)))
}

/// The indentation of the step line whose span is `first`: the white space
/// from the start of its line up to the span (two spaces when there is none).
pub open spec fn spec_step_indent(s: Seq<char>, first: Option<Span>) -> Seq<char> {
    match first {
        Some(sp) => {
            let p = cidx(s, sp.start as int);
            let ls = line_start(s, p);
            s.subrange(ls, skip_ws(s, ls, p))
        },
        None => "  "@,
    }
}

fn step_indent_of(source: &str, chars: &[char], first: Option<Span>) -> (r: String)
    requires
        chars@ == source@,
        first matches Some(sp) ==> char_index(source@, sp.start as int) is Some,
    ensures
        r@ == spec_step_indent(source@, first),
{
    match first {
        Some(sp) => {
            proof {
                lemma_char_index_from(source@, sp.start as int, 0);
            }
            let p = span_char(chars, sp.start);
            let ls = line_start_of(chars, p);
            let w = skip_ws_of(chars, ls, p);
            String::from_str(source.substring_char(ls, w))
        },
        None => String::from_str("  "),
    }
}

/// The leading white space of the line holding the first step, or two
/// spaces when the first step has no span.
pub fn detect_step_indent(source: &str, first_step_span: Option<Span>) -> (r: String)
    requires
        first_step_span matches Some(sp) ==> char_index(source@, sp.start as int) is Some,
    ensures
        r@ == spec_step_indent(source@, first_step_span),
{
    let chars = str_chars(source);
    step_indent_of(source, &chars, first_step_span)
}

/// The source with `token` on a new step line of pattern `name` at
/// position `index`: before step `index`, or after the last step when
/// `index` is the step count, indented as the first step.
pub open spec fn spec_insert_step(
    s: Seq<char>,
    blocks: Seq<OutlineBlock>,
    name: Seq<char>,
    index: usize,
    token: Seq<char>,
) -> Result<Seq<char>, EditErrorModel> {
    match spec_pattern_steps(blocks, name, "' uses expression body, not step lines"@) {
        Err(e) => Err(e),
        Ok(v) => if index > v.len() {
            Err(EditErrorModel::StepIndexOutOfRange { index, count: v.len() as usize })
        } else {
            let pos: Result<int, EditErrorModel> = if index < v.len() {
                match v[index as int] {
                    Some(sp) => Ok(cidx(s, sp.start as int)),
                    None => Err(EditErrorModel::NoSpan { name }),
                }
            } else if v.len() == 0 {
                Err(EditErrorModel::StepIndexOutOfRange { index, count: 0 })
            } else {
                match v.last() {
                    Some(sp) => Ok(cidx(s, sp.end as int)),
                    None => Err(EditErrorModel::NoSpan { name }),
                }
            };
            match pos {
                Err(e) => Err(e),
                Ok(p) => {
                    let indent = spec_step_indent(
                        s,
                        if v.len() > 0 {
                            v[0]
                        } else {
                            None
                        },
                    );
                    let line = if index < v.len() {
                        indent + token + "\n"@
                    } else {
                        "\n"@ + indent + token
                    };
                    Ok(s.subrange(0, p) + line + s.subrange(p, s.len() as int))
                },
            }
        },
    }
}

/// Insert a step token at the given index in a named pattern.
///
/// Index 0 inserts before the first step; index == step_count appends at the end.
fn insert_step_spliced(
    source: &str,
    outline: &SourceOutline,
    pattern_name: &str,
    index: usize,
    token_text: &str,
) -> (r: Result<String, EditError>)
    requires
        outline_fits(source@, *outline),
    ensures
        edit_result_matches(
            r,
            spec_insert_step(source@, outline.blocks@, pattern_name@, index, token_text@),
        ),
{
    let steps = match pattern_steps(&outline.blocks, pattern_name, true) {
        Ok(v) => v,
        Err(e) => return Err(e),
    };
    let ghost k = pattern_index(outline.blocks@, pattern_name@, 0)->Some_0;
    proof {
        lemma_pattern_index(outline.blocks@, pattern_name@, 0);
        assert(outline.blocks@[k] matches OutlineBlock::Pattern { steps: Some(w), .. } && w@
            == steps@);
        assert(forall|j: int|
            0 <= j < steps@.len() ==> (#[trigger] steps@[j] matches Some(sp) ==> span_fits(
                source@,
                sp,
            )));
    }
    let n_steps = steps.len();
    if index > n_steps {
        return Err(EditError::StepIndexOutOfRange { index, count: n_steps });
    }
    let chars = str_chars(source);
    let n = chars.len();
    let pos = if index < n_steps {
        match steps[index] {
            Some(sp) => {
                proof {
                    lemma_span_chars(source@, sp);
                }
                span_char(&chars, sp.start)
            },
            None => return Err(EditError::NoSpan { name: String::from_str(pattern_name) }),
        }
    } else if n_steps == 0 {
        return Err(EditError::StepIndexOutOfRange { index, count: 0 });
    } else {
        match steps[n_steps - 1] {
            Some(sp) => {
                proof {
                    lemma_span_chars(source@, sp);
                }
                span_char(&chars, sp.end)
            },
            None => return Err(EditError::NoSpan { name: String::from_str(pattern_name) }),
        }
    };
    let first = if n_steps > 0 {
        steps[0]
    } else {
        None
    };
    proof {
        match first {
            Some(sp) => {
                assert(span_fits(source@, sp));
            },
            None => {},
        }
    }
    let indent = step_indent_of(source, &chars, first);
    let mut line = String::new();
    if index < n_steps {
        line.append(indent.as_str());
        line.append(token_text);
        line.append("\n");
    } else {
        line.append("\n");
        line.append(indent.as_str());
        line.append(token_text);
    }
    Ok(splice(source.substring_char(0, pos), line.as_str(), source.substring_char(pos, n)))
}

// ── Track and header edits ───────────────────────────────────────────

/// The first position `i >= from` with `pat` at `i`, ending by `to`.
pub open spec fn find_sub(s: Seq<char>, pat: Seq<char>, from: int, to: int) -> Option<int>
    decreases to + 1 - from,
{
    if from < 0 || from + pat.len() > to {
        None
    } else if s.subrange(from, from + pat.len()) == pat {
        Some(from)
    } else {
        find_sub(s, pat, from + 1, to)
    }
}

proof fn lemma_find_sub(s: Seq<char>, pat: Seq<char>, from: int, to: int)
    ensures
        find_sub(s, pat, from, to) matches Some(i) ==> from <= i && i + pat.len() <= to,
    decreases to + 1 - from,
{
    if from >= 0 && from + pat.len() <= to && s.subrange(from, from + pat.len()) != pat {
        lemma_find_sub(s, pat, from + 1, to);
    }
}

fn find_sub_of(s: &[char], pat: &[char], from: usize, to: usize) -> (r: Option<usize>)
    requires
        from <= to <= s@.len(),
    ensures
        match find_sub(s@, pat@, from as int, to as int) {
            Some(i) => r matches Some(x) && x as int == i && from <= i && i + pat@.len() <= to,
            None => r is None,
        },
{
    proof {
        lemma_find_sub(s@, pat@, from as int, to as int);
    }
    let m = pat.len();
    let mut i: usize = from;
    while i <= to && m <= to - i
        invariant
            from <= i,
            to <= s@.len(),
            m == pat@.len(),
            find_sub(s@, pat@, from as int, to as int) == find_sub(s@, pat@, i as int, to as int),
        decreases to + 1 - i,
    {
        let mut j: usize = 0;
        let mut same = true;
        while j < m
            invariant
                i + m <= to <= s@.len(),
                m == pat@.len(),
                j <= m,
                same <==> forall|t: int| 0 <= t < j ==> s@[i + t] == pat@[t],
            decreases m - j,
        {
            if s[i + j] != pat[j] {
                same = false;
            }
            j = j + 1;
        }
        if same {
            assert(s@.subrange(i as int, i + m) =~= pat@);
            return Some(i);
        } else {
            proof {
                let t = choose|t: int| 0 <= t < m && s@[i + t] != pat@[t];
                assert(s@.subrange(i as int, i + m)[t] != pat@[t]);
            }
        }
        i = i + 1;
    }
    None
}

/// Bytes taken by the characters `i..j` of `s`.
pub open spec fn seg_bytes(s: Seq<char>, i: int, j: int) -> int {
    prefix_bytes(s, j) - prefix_bytes(s, i)
}

fn seg_bytes_of(s: &[char], i: usize, j: usize) -> (r: u128)
    requires
        i <= j <= s@.len(),
    ensures
        r == seg_bytes(s@, i as int, j as int),
        r <= 4 * (j - i),
{
    let mut k: usize = i;
    let mut acc: u128 = 0;
    while k < j
        invariant
            i <= k <= j <= s@.len(),
            acc == seg_bytes(s@, i as int, k as int),
            acc <= 4 * (k - i),
        decreases j - k,
    {
        acc = acc + char_width(s[k]) as u128;
        k = k + 1;
    }
    acc
}

/// End of the line starting at `i` within `..end`: the next newline, or `end`.
pub open spec fn line_end_in(s: Seq<char>, i: int, end: int) -> int
    decreases end - i,
{
    if i >= end {
        end
    } else if s[i] == '\n' {
        i
    } else {
        line_end_in(s, i + 1, end)
    }
}

/// Byte offset, from the start of the line scan at `i` (offset `off`),
/// of the first `play:` directive among the lines of `s[i..end]`: each line
/// ends at a newline (a carriage return before it is not part of the line)
/// and a line is counted as its bytes plus one; the directive may follow
/// white space.
pub open spec fn play_line_from(s: Seq<char>, i: int, end: int, off: int) -> Option<int>
    decreases end + 1 - i,
{
    if i < 0 || i >= end {
        None
    } else {
        let e = line_end_in(s, i, end);
        let le = if e < end && e > i && s[e - 1] == '\r' {
            e - 1
        } else {
            e
        };
        let w = skip_ws(s, i, le);
        if is_prefix_chars(s.subrange(w, le), seq!['p', 'l', 'a', 'y', ':']) {
            Some(off + seg_bytes(s, i, w))
        } else {
            proof {
                lemma_line_end_in(s, i, end);
            }
            play_line_from(s, e + 1, end, off + seg_bytes(s, i, le) + 1)
        }
    }
}

/// Whether `prefix` begins `s`.
pub open spec fn is_prefix_chars(s: Seq<char>, prefix: Seq<char>) -> bool {
    prefix.len() <= s.len() && s.subrange(0, prefix.len() as int) == prefix
}

/// The end of a line scanned from `i` lies between `i` and `end`.
pub proof fn lemma_line_end_in(s: Seq<char>, i: int, end: int)
    requires
        i <= end,
    ensures
        i <= line_end_in(s, i, end) <= end,
    decreases end - i,
{
    if i < end && s[i] != '\n' {
        lemma_line_end_in(s, i + 1, end);
    }
}

fn line_end_in_of(s: &[char], i: usize, end: usize) -> (r: usize)
    requires
        i <= end <= s@.len(),
    ensures
        r == line_end_in(s@, i as int, end as int),
        i <= r <= end,
{
    proof {
        lemma_line_end_in(s@, i as int, end as int);
    }
    let mut k: usize = i;
    while k < end
        invariant
            i <= k <= end <= s@.len(),
            line_end_in(s@, i as int, end as int) == line_end_in(s@, k as int, end as int),
        decreases end - k,
    {
        if s[k] == '\n' {
            return k;
        }
        k = k + 1;
    }
    end
}

fn starts_with_play(s: &[char], w: usize, le: usize) -> (r: bool)
    requires
        w <= le <= s@.len(),
    ensures
        r == is_prefix_chars(s@.subrange(w as int, le as int), seq!['p', 'l', 'a', 'y', ':']),
{
    let ghost p = seq!['p', 'l', 'a', 'y', ':'];
    if le - w < 5 {
        return false;
    }
    let ok = s[w] == 'p' && s[w + 1] == 'l' && s[w + 2] == 'a' && s[w + 3] == 'y' && s[w + 4]
        == ':';
    proof {
        let t = s@.subrange(w as int, le as int);
        if ok {
            assert(t.subrange(0, 5) =~= p);
        } else {
            assert(t.subrange(0, 5) != p) by {
                if t.subrange(0, 5) == p {
                    assert(t.subrange(0, 5)[0] == 'p');
                    assert(t.subrange(0, 5)[1] == 'l');
                    assert(t.subrange(0, 5)[2] == 'a');
                    assert(t.subrange(0, 5)[3] == 'y');
                    assert(t.subrange(0, 5)[4] == ':');
                }
            }
        }
    }
    ok
}

/// Byte offset of the first `play:` directive in the lines of `s[a..b]`.
fn play_line_offset(s: &[char], a: usize, b: usize) -> (r: Option<u128>)
    requires
        a <= b <= s@.len(),
    ensures
        match play_line_from(s@, a as int, b as int, 0) {
            Some(o) => r matches Some(x) && x as int == o && x <= 4 * (b - a),
            None => r is None,
        },
{
    let mut i: usize = a;
    let mut off: u128 = 0;
    while i < b
        invariant
            a <= i,
            b <= s@.len(),
            off <= 4 * (i - a),
            play_line_from(s@, a as int, b as int, 0) == play_line_from(
                s@,
                i as int,
                b as int,
                off as int,
            ),
        decreases b - i,
    {
        let e = line_end_in_of(s, i, b);
        let le = if e < b && e > i && s[e - 1] == '\r' {
            e - 1
        } else {
            e
        };
        let w = skip_ws_of(s, i, le);
        if starts_with_play(s, w, le) {
            let d = seg_bytes_of(s, i, w);
            return Some(off + d);
        }
        let d = seg_bytes_of(s, i, le);
        if e >= b {
            proof {
                assert(play_line_from(s@, e + 1, b as int, off + d + 1) is None);
            }
            return None;
        }
        off = off + d + 1;
        i = e + 1;
    }
    None
}

/// The source with ` -> transform` appended to the `play:` line of track `name`.
pub open spec fn spec_add_transform(
    s: Seq<char>,
    blocks: Seq<OutlineBlock>,
    name: Seq<char>,
    transform: Seq<char>,
) -> Result<Seq<char>, EditErrorModel> {
    match track_index(blocks, name, 0) {
        None => Err(EditErrorModel::BlockNotFound { name }),
        Some(k) => match blocks[k] {
            OutlineBlock::Track { span: Some(sp), .. } => {
                let a = cidx(s, sp.start as int);
                let b = cidx(s, sp.end as int);
                match play_line_from(s, a, b, 0) {
                    None => Err(
                        EditErrorModel::ParseError {
                            message: "track '"@ + name + "' has no play: directive"@,
                        },
                    ),
                    Some(rel) => {
                        let p = cidx(s, sp.start + rel);
                        let pe = match next_newline(s, p) {
                            Some(q) => q,
                            None => b,
                        };
                        Ok(s.subrange(0, pe) + (" -> "@ + transform) + s.subrange(
                            pe,
                            s.len() as int,
                        ))
                    },
                }
            },
            _ => Err(EditErrorModel::NoSpan { name }),
        },
    }
}

/// The `play:` directive of track `name`, when there is one, begins at a
/// character boundary of the source.
pub open spec fn play_line_fits(s: Seq<char>, blocks: Seq<OutlineBlock>, name: Seq<char>) -> bool {
    match track_index(blocks, name, 0) {
        Some(k) => match blocks[k] {
            OutlineBlock::Track { span: Some(sp), .. } => match play_line_from(
                s,
                cidx(s, sp.start as int),
                cidx(s, sp.end as int),
                0,
            ) {
                Some(rel) => char_index(s, sp.start + rel) is Some,
                None => true,
            },
            _ => true,
        },
        None => true,
    }
}

/// Add a transform to a track's play expression.
///
/// `transform_text` is the transform call (e.g., "reverse", "transpose(2)").
fn add_transform_spliced(
    source: &str,
    outline: &SourceOutline,
    track_name: &str,
    transform_text: &str,
) -> (r: Result<String, EditError>)
    requires
        outline_fits(source@, *outline),
        play_line_fits(source@, outline.blocks@, track_name@),
    ensures
        edit_result_matches(
            r,
            spec_add_transform(source@, outline.blocks@, track_name@, transform_text@),
        ),
{
    let k = match find_track(&outline.blocks, track_name) {
        Some(k) => k,
        None => return Err(EditError::BlockNotFound { name: String::from_str(track_name) }),
    };
    let sp = match &outline.blocks[k] {
        OutlineBlock::Track { span: Some(sp), .. } => *sp,
        _ => return Err(EditError::NoSpan { name: String::from_str(track_name) }),
    };
    proof {
        assert(outline.blocks@[k as int] matches OutlineBlock::Track { span: Some(x), .. } && x
            == sp);
        assert(span_fits(source@, sp));
        lemma_span_chars(source@, sp);
    }
    let chars = str_chars(source);
    let n = chars.len();
    let a = span_char(&chars, sp.start);
    let b = span_char(&chars, sp.end);
    let rel = match play_line_offset(&chars, a, b) {
        Some(x) => x,
        None => {
            let mut message = String::from_str("track '");
            message.append(track_name);
            message.append("' has no play: directive");
            return Err(EditError::ParseError { message });
        },
    };
    let target = sp.start as u128 + rel;
    let p = match byte_to_char_wide(&chars, target) {
        Some(p) => p,
        None => 0,
    };
    let pe = match next_newline_of(&chars, p) {
        Some(q) => q,
        None => b,
    };
    let mut suffix = String::from_str(" -> ");
    suffix.append(transform_text);
    Ok(splice(source.substring_char(0, pe), suffix.as_str(), source.substring_char(pe, n)))
}

/// The character position of byte offset `b` in `s`.
fn byte_to_char_wide(s: &[char], b: u128) -> (r: Option<usize>)
    ensures
        match char_index(s@, b as int) {
            Some(k) => r matches Some(x) && x as int == k && k <= s@.len(),
            None => r is None,
        },
{
    proof {
        lemma_char_index_from(s@, b as int, 0);
    }
    let mut k: usize = 0;
    let mut acc: u128 = 0;
    while k <= s.len()
        invariant
            k <= s@.len() + 1,
            k <= s@.len() ==> acc == prefix_bytes(s@, k as int),
            k <= s@.len() ==> acc <= b,
            acc <= 4 * k,
            char_index(s@, b as int) == char_index_from(s@, b as int, k as int),
        decreases s@.len() + 1 - k,
    {
        if acc == b {
            return Some(k);
        }
        if k == s.len() {
            assert(char_index_from(s@, b as int, k + 1) is None);
            return None;
        }
        acc = acc + char_width(s[k]) as u128;
        k = k + 1;
        if acc > b {
            return None;
        }
    }
    None
}

/// The source with parameter `param` of track `name` set to `value`: an
/// existing `param=` on the track's declaration line has its value (up to
/// the next white space, else the line end) replaced; otherwise
/// ` param=value` is appended to that line.
pub open spec fn spec_set_track_param(
    s: Seq<char>,
    blocks: Seq<OutlineBlock>,
    name: Seq<char>,
    param: Seq<char>,
    value: Seq<char>,
) -> Result<Seq<char>, EditErrorModel> {
    match track_index(blocks, name, 0) {
        None => Err(EditErrorModel::BlockNotFound { name }),
        Some(k) => match blocks[k] {
            OutlineBlock::Track { span: Some(sp), .. } => {
                let a = cidx(s, sp.start as int);
                let b = cidx(s, sp.end as int);
                let tle = match next_newline(s, a) {
                    Some(q) => q,
                    None => b,
                };
                let pat = param + "="@;
                match find_sub(s, pat, a, tle) {
                    Some(pp) => {
                        let vs = pp + pat.len();
                        let w = find_ws(s, vs, s.len() as int);
                        let ve = if w < s.len() {
                            w
                        } else {
                            tle
                        };
                        Ok(s.subrange(0, vs) + value + s.subrange(ve, s.len() as int))
                    },
                    None => Ok(s.subrange(0, tle) + (" "@ + param + "="@ + value) + s.subrange(
                        tle,
                        s.len() as int,
                    )),
                }
            },
            _ => Err(EditErrorModel::NoSpan { name }),
        },
    }
}

/// Set a parameter on a track block.
///
/// If the parameter already exists, its value is replaced. If not, it is appended
/// to the track declaration line.
fn set_track_param_spliced(
    source: &str,
    outline: &SourceOutline,
    track_name: &str,
    param: &str,
    value: &str,
) -> (r: Result<String, EditError>)
    requires
        outline_fits(source@, *outline),
    ensures
        edit_result_matches(
            r,
            spec_set_track_param(source@, outline.blocks@, track_name@, param@, value@),
        ),
{
    let k = match find_track(&outline.blocks, track_name) {
        Some(k) => k,
        None => return Err(EditError::BlockNotFound { name: String::from_str(track_name) }),
    };
    let sp = match &outline.blocks[k] {
        OutlineBlock::Track { span: Some(sp), .. } => *sp,
        _ => return Err(EditError::NoSpan { name: String::from_str(track_name) }),
    };
    proof {
        assert(outline.blocks@[k as int] matches OutlineBlock::Track { span: Some(x), .. } && x
            == sp);
        assert(span_fits(source@, sp));
        lemma_span_chars(source@, sp);
    }
    let chars = str_chars(source);
    let n = chars.len();
    let a = span_char(&chars, sp.start);
    let b = span_char(&chars, sp.end);
    let tle = match next_newline_of(&chars, a) {
        Some(q) => q,
        None => b,
    };
    let mut pat_text = String::from_str(param);
    pat_text.append("=");
    let pat = str_chars(pat_text.as_str());
    match find_sub_of(&chars, &pat, a, tle) {
        Some(pp) => {
            let vs = pp + pat.len();
            let w = find_ws_of(&chars, vs, n);
            let ve = if w < n {
                w
            } else {
                tle
            };
            Ok(splice(source.substring_char(0, vs), value, source.substring_char(ve, n)))
        },
        None => {
            let mut added = String::from_str(" ");
            added.append(param);
            added.append("=");
            added.append(value);
            Ok(splice(source.substring_char(0, tle), added.as_str(), source.substring_char(tle, n)))
        },
    }
}

/// Whether `pat` occurs in `s` at `p`, wholly within `a..e`.
pub open spec fn occurs_within(s: Seq<char>, pat: Seq<char>, p: int, a: int, e: int) -> bool {
    a <= p && p + pat.len() <= e && s.subrange(p, p + pat.len()) == pat
}

proof fn lemma_find_sub_first(s: Seq<char>, pat: Seq<char>, from: int, to: int)
    requires
        0 <= from,
        to <= s.len(),
    ensures
        match find_sub(s, pat, from, to) {
            Some(i) => occurs_within(s, pat, i, from, to) && forall|q: int|
                from <= q < i ==> !occurs_within(s, pat, q, from, to),
            None => forall|q: int| !occurs_within(s, pat, q, from, to),
        },
    decreases to + 1 - from,
{
    if from + pat.len() > to {
    } else if s.subrange(from, from + pat.len()) == pat {
    } else {
        lemma_find_sub_first(s, pat, from + 1, to);
        match find_sub(s, pat, from + 1, to) {
            Some(i) => {
                assert forall|q: int| from <= q < i implies !occurs_within(s, pat, q, from, to) by {
                    if q > from {
                        assert(!occurs_within(s, pat, q, from + 1, to));
                    }
                }
            },
            None => {
                assert forall|q: int| !occurs_within(s, pat, q, from, to) by {
                    if q > from {
                        assert(!occurs_within(s, pat, q, from + 1, to));
                    }
                }
            },
        }
    }
}

proof fn lemma_find_ws_first(s: Seq<char>, from: int, to: int)
    requires
        0 <= from <= to <= s.len(),
    ensures
        from <= find_ws(s, from, to) <= to,
        forall|c: int| from <= c < find_ws(s, from, to) ==> !is_ws(#[trigger] s[c]),
        find_ws(s, from, to) < to ==> is_ws(s[find_ws(s, from, to)]),
    decreases to - from,
{
    if from < to && !is_ws(s[from]) {
        lemma_find_ws_first(s, from + 1, to);
    }
}

/// The line end of the track declaration that starts at character `a` of
/// a block ending at character `b`.
pub open spec fn declaration_line_end(s: Seq<char>, a: int, b: int) -> int {
    match next_newline(s, a) {
        Some(q) => q,
        None => b,
    }
}

proof fn lemma_set_track_param_unfold(
    s: Seq<char>,
    blocks: Seq<OutlineBlock>,
    name: Seq<char>,
    param: Seq<char>,
    value: Seq<char>,
    k: int,
    sp: Span,
)
    requires
        track_index(blocks, name, 0) == Some(k),
        blocks[k] matches OutlineBlock::Track { span: Some(x), .. } && x == sp,
    ensures
        ({
            let a = cidx(s, sp.start as int);
            let e = declaration_line_end(s, a, cidx(s, sp.end as int));
            let pat = param + "="@;
            spec_set_track_param(s, blocks, name, param, value) == match find_sub(s, pat, a, e) {
                Some(pp) => {
                    let vs = pp + pat.len();
                    let w = find_ws(s, vs, s.len() as int);
                    let ve = if w < s.len() {
                        w
                    } else {
                        e
                    };
                    Ok::<Seq<char>, EditErrorModel>(s.subrange(0, vs) + value + s.subrange(ve, s.len() as int))
                },
                None => Ok::<Seq<char>, EditErrorModel>(s.subrange(0, e) + (" "@ + param + "="@ + value) + s.subrange(
                    e,
                    s.len() as int,
                )),
            }
        }),
{
}

proof fn lemma_value_end(s: Seq<char>, vs: int, ve: int, e: int)
    requires
        0 <= vs <= ve <= s.len(),
        forall|c: int| vs <= c < ve ==> !is_ws(#[trigger] s[c]),
        (ve < s.len() && is_ws(s[ve])) || (ve == e && forall|c: int|
            vs <= c < s.len() ==> !is_ws(#[trigger] s[c])),
    ensures
        ve == (if find_ws(s, vs, s.len() as int) < s.len() {
            find_ws(s, vs, s.len() as int)
        } else {
            e
        }),
{
    lemma_find_ws_first(s, vs, s.len() as int);
    let w = find_ws(s, vs, s.len() as int);
    if ve < s.len() && is_ws(s[ve]) {
        if w < ve {
            assert(!is_ws(s[w]));
        } else if w > ve {
            assert(!is_ws(s[ve]));
        }
    } else {
        if w < s.len() {
            assert(!is_ws(s[w]));
        }
    }
}

proof fn lemma_first_occurrence(s: Seq<char>, pat: Seq<char>, p: int, a: int, e: int)
    requires
        0 <= a,
        e <= s.len(),
        occurs_within(s, pat, p, a, e),
        forall|q: int| a <= q < p ==> !occurs_within(s, pat, q, a, e),
    ensures
        find_sub(s, pat, a, e) == Some(p),
{
    lemma_find_sub_first(s, pat, a, e);
    match find_sub(s, pat, a, e) {
        Some(i) => {
            if i < p {
                assert(!occurs_within(s, pat, i, a, e));
            } else if i > p {
                assert(!occurs_within(s, pat, p, a, e));
            }
        },
        None => {
            assert(!occurs_within(s, pat, p, a, e));
        },
    }
}

/// Setting a track parameter changes only what it must. When `param=`
/// occurs on the track's declaration line (from the block's start to the
/// first newline, else the block's end), first at `p`, the result is the
/// source with the characters from just after that `param=` up to `ve`
/// replaced by `value`, where `ve` is the next white space (or, when no
/// white space follows anywhere, the end of the line); everything else,
/// the other parameters of the line included, is kept.
pub proof fn lemma_set_track_param_replaces_only_value(
    s: Seq<char>,
    blocks: Seq<OutlineBlock>,
    name: Seq<char>,
    param: Seq<char>,
    value: Seq<char>,
    k: int,
    sp: Span,
    p: int,
    ve: int,
)
    requires
        track_index(blocks, name, 0) == Some(k),
        blocks[k] matches OutlineBlock::Track { span: Some(x), .. } && x == sp,
        span_fits(s, sp),
        occurs_within(s, param + "="@, p, cidx(s, sp.start as int), declaration_line_end(s, cidx(s, sp.start as int), cidx(s, sp.end as int))),
        forall|q: int|
            cidx(s, sp.start as int) <= q < p ==> !occurs_within(
                s,
                param + "="@,
                q,
                cidx(s, sp.start as int),
                declaration_line_end(s, cidx(s, sp.start as int), cidx(s, sp.end as int)),
            ),
        p + param.len() + 1 <= ve <= s.len(),
        forall|c: int| p + param.len() + 1 <= c < ve ==> !is_ws(#[trigger] s[c]),
        (ve < s.len() && is_ws(s[ve])) || (ve == declaration_line_end(s, cidx(s, sp.start as int), cidx(s, sp.end as int)) && forall|c: int|
            p + param.len() + 1 <= c < s.len() ==> !is_ws(#[trigger] s[c])),
    ensures
        spec_set_track_param(s, blocks, name, param, value) == Ok::<Seq<char>, EditErrorModel>(
            s.subrange(0, p + param.len() + 1) + value + s.subrange(ve, s.len() as int),
        ),
{
    lemma_span_chars(s, sp);
    let a = cidx(s, sp.start as int);
    let e = declaration_line_end(s, a, cidx(s, sp.end as int));
    lemma_next_newline(s, a);
    let pat = param + "="@;
    reveal_strlit("=");
    assert(pat.len() == param.len() + 1);
    lemma_first_occurrence(s, pat, p, a, e);
    lemma_value_end(s, p + pat.len(), ve, e);
    lemma_set_track_param_unfold(s, blocks, name, param, value, k, sp);
}

/// When `param=` does not occur on the track's declaration line, setting it
/// inserts ` param=value` at the end of that line and keeps everything else.
pub proof fn lemma_set_track_param_appends_when_absent(
    s: Seq<char>,
    blocks: Seq<OutlineBlock>,
    name: Seq<char>,
    param: Seq<char>,
    value: Seq<char>,
    k: int,
    sp: Span,
)
    requires
        track_index(blocks, name, 0) == Some(k),
        blocks[k] matches OutlineBlock::Track { span: Some(x), .. } && x == sp,
        span_fits(s, sp),
        forall|q: int|
            !occurs_within(
                s,
                param + "="@,
                q,
                cidx(s, sp.start as int),
                declaration_line_end(s, cidx(s, sp.start as int), cidx(s, sp.end as int)),
            ),
    ensures
        ({
            let e = declaration_line_end(s, cidx(s, sp.start as int), cidx(s, sp.end as int));
            spec_set_track_param(s, blocks, name, param, value) == Ok::<Seq<char>, EditErrorModel>(
                s.subrange(0, e) + (" "@ + param + "="@ + value) + s.subrange(e, s.len() as int),
            )
        }),
{
    lemma_span_chars(s, sp);
    let a = cidx(s, sp.start as int);
    let e = declaration_line_end(s, a, cidx(s, sp.end as int));
    lemma_next_newline(s, a);
    let pat = param + "="@;
    lemma_find_sub_first(s, pat, a, e);
    match find_sub(s, pat, a, e) {
        Some(i) => {
            assert(!occurs_within(s, pat, i, a, e));
        },
        None => {},
    }
    lemma_set_track_param_unfold(s, blocks, name, param, value, k, sp);
}

/// The first position in `from..to` holding a newline or a character that
/// is not white space, or `to`.
pub open spec fn skip_blank(s: Seq<char>, from: int, to: int) -> int
    decreases to - from,
{
    if from >= to {
        to
    } else if !is_ws(s[from]) || s[from] == '\n' {
        from
    } else {
        skip_blank(s, from + 1, to)
    }
}

proof fn lemma_skip_blank(s: Seq<char>, from: int, to: int)
    requires
        from <= to,
    ensures
        from <= skip_blank(s, from, to) <= to,
    decreases to - from,
{
    if from < to {
        lemma_skip_blank(s, from + 1, to);
    }
}

fn skip_blank_of(s: &[char], from: usize, to: usize) -> (r: usize)
    requires
        from <= to <= s@.len(),
    ensures
        r == skip_blank(s@, from as int, to as int),
        from <= r <= to,
{
    proof {
        lemma_skip_blank(s@, from as int, to as int);
    }
    let mut i: usize = from;
    while i < to
        invariant
            from <= i <= to <= s@.len(),
            skip_blank(s@, from as int, to as int) == skip_blank(s@, i as int, to as int),
        decreases to - i,
    {
        if !is_whitespace(s[i]) || s[i] == '\n' {
            return i;
        }
        i = i + 1;
    }
    to
}

/// The source with the value of header directive `@param`, the first one in
/// the header, replaced by `value` (the rest of its line); a directive with
/// no value on its line gets ` value` appended.
pub open spec fn spec_set_header_param(
    s: Seq<char>,
    header: Option<Span>,
    param: Seq<char>,
    value: Seq<char>,
) -> Result<Seq<char>, EditErrorModel> {
    let search_end = match header {
        Some(h) => cidx(s, h.end as int),
        None => s.len() as int,
    };
    let d = "@"@ + param;
    match find_sub(s, d, 0, search_end) {
        None => Err(EditErrorModel::HeaderParamNotFound { param }),
        Some(pos) => {
            let after = pos + d.len();
            let f = skip_blank(s, after, s.len() as int);
            let vs = if f < s.len() {
                f
            } else {
                after
            };
            if (vs < s.len() && s[vs] == '\n') || vs >= s.len() {
                Ok(s.subrange(0, after) + (" "@ + value) + s.subrange(after, s.len() as int))
            } else {
                let ve = match next_newline(s, vs) {
                    Some(q) => q,
                    None => s.len() as int,
                };
                Ok(s.subrange(0, vs) + value + s.subrange(ve, s.len() as int))
            }
        },
    }
}

/// Set a global header parameter value.
///
/// Replaces the value of an existing header directive (e.g., "@bpm 120" → "@bpm 140").
fn set_header_param_spliced(source: &str, outline: &SourceOutline, param: &str, value: &str) -> (r:
    Result<String, EditError>)
    requires
        outline_fits(source@, *outline),
    ensures
        edit_result_matches(
            r,
            spec_set_header_param(source@, outline.header_span, param@, value@),
        ),
{
    let chars = str_chars(source);
    let n = chars.len();
    let search_end = match outline.header_span {
        Some(h) => {
            proof {
                lemma_span_chars(source@, h);
            }
            span_char(&chars, h.end)
        },
        None => n,
    };
    let mut d_text = String::from_str("@");
    d_text.append(param);
    let d = str_chars(d_text.as_str());
    let pos = match find_sub_of(&chars, &d, 0, search_end) {
        Some(p) => p,
        None => return Err(EditError::HeaderParamNotFound { param: String::from_str(param) }),
    };
    let after = pos + d.len();
    let f = skip_blank_of(&chars, after, n);
    let vs = if f < n {
        f
    } else {
        after
    };
    if (vs < n && chars[vs] == '\n') || vs >= n {
        let mut added = String::from_str(" ");
        added.append(value);
        return Ok(
            splice(source.substring_char(0, after), added.as_str(), source.substring_char(after, n)),
        );
    }
    let ve = match next_newline_of(&chars, vs) {
        Some(q) => q,
        None => n,
    };
    Ok(splice(source.substring_char(0, vs), value, source.substring_char(ve, n)))
}


// ── Edits checked by the parser ──────────────────────────────────────

/// Whether `parse` can be called on any text, and every outline it gives
/// fits the text it was given.
pub open spec fn parse_gives_outlines<F: Fn(&str) -> Result<SourceOutline, String>>(parse: F) -> bool {
    &&& forall|s: &str| call_requires(parse, (s,))
    &&& forall|s: &str, o: SourceOutline|
        #[trigger] call_ensures(parse, (s,), Ok::<SourceOutline, String>(o)) ==> outline_fits(s@, o)
            && forall|n: Seq<char>| play_line_fits(s@, o.blocks@, n)
}

/// Whether `r` is the outcome of an edit whose spliced text (or error) is
/// `spliced`, once the spliced text is parsed again: the text when it parses,
/// else `InvalidResult` with the parser's message.
pub open spec fn checked_outcome<F: Fn(&str) -> Result<SourceOutline, String>>(
    parse: F,
    spliced: Result<Seq<char>, EditErrorModel>,
    r: Result<String, EditError>,
) -> bool {
    match spliced {
        Err(m) => r matches Err(e) && e@ == m,
        Ok(t) => exists|u: &str, v: Result<SourceOutline, String>|
            u@ == t && #[trigger] call_ensures(parse, (u,), v) && match v {
                Ok(_) => r matches Ok(x) && x@ == t,
                Err(msg) => r matches Err(EditError::InvalidResult { message }) && message@ == msg@,
            },
    }
}

/// Parse the edited text again: keep it when it parses, else report it invalid.
fn validate_result<F: Fn(&str) -> Result<SourceOutline, String>>(
    spliced: Result<String, EditError>,
    parse: &F,
) -> (r: Result<String, EditError>)
    requires
        parse_gives_outlines(*parse),
    ensures
        forall|spec: Result<Seq<char>, EditErrorModel>|
            edit_result_matches(spliced, spec) ==> #[trigger] checked_outcome(*parse, spec, r),
{
    match spliced {
        Err(e) => Err(e),
        Ok(text) => {
            let u = text.as_str();
            let v = parse(u);
            proof {
                assert(call_ensures(*parse, (u,), v));
                assert(u@ == text@);
            }
            match v {
                Ok(_) => Ok(text),
                Err(m) => Err(EditError::InvalidResult { message: m }),
            }
        },
    }
}

/// Insert a step token at the given index in a named pattern.
///
/// Index 0 inserts before the first step; index == step_count appends at the end.
///
/// `parse` parses a source text into its outline, or gives the parser's
/// message: the source is parsed first (a failure is a `ParseError`), and
/// the edited text is parsed again (a failure is an `InvalidResult`).
pub fn insert_step<F: Fn(&str) -> Result<SourceOutline, String>>(
    source: &str,
    pattern_name: &str, index: usize, token_text: &str,
    parse: &F,
) -> (r: Result<String, EditError>)
    requires
        parse_gives_outlines(*parse),
    ensures
        exists|v: Result<SourceOutline, String>|
            #[trigger] call_ensures(*parse, (source,), v) && match v {
                Err(m) => r matches Err(EditError::ParseError { message }) && message@ == m@,
                Ok(o) => checked_outcome(*parse, spec_insert_step(source@, o.blocks@, pattern_name@, index, token_text@), r),
            },
{
    let v = parse(source);
    proof {
        assert(call_ensures(*parse, (source,), v));
    }
    match v {
        Err(m) => Err(EditError::ParseError { message: m }),
        Ok(outline) => {
            let spliced = insert_step_spliced(source, &outline, pattern_name, index, token_text);
            validate_result(spliced, parse)
        },
    }
}

/// Remove a step at the given index from a named pattern.
///
/// `parse` parses a source text into its outline, or gives the parser's
/// message: the source is parsed first (a failure is a `ParseError`), and
/// the edited text is parsed again (a failure is an `InvalidResult`).
pub fn remove_step<F: Fn(&str) -> Result<SourceOutline, String>>(
    source: &str,
    pattern_name: &str, index: usize,
    parse: &F,
) -> (r: Result<String, EditError>)
    requires
        parse_gives_outlines(*parse),
    ensures
        exists|v: Result<SourceOutline, String>|
            #[trigger] call_ensures(*parse, (source,), v) && match v {
                Err(m) => r matches Err(EditError::ParseError { message }) && message@ == m@,
                Ok(o) => checked_outcome(*parse, spec_remove_step(source@, o.blocks@, pattern_name@, index), r),
            },
{
    let v = parse(source);
    proof {
        assert(call_ensures(*parse, (source,), v));
    }
    match v {
        Err(m) => Err(EditError::ParseError { message: m }),
        Ok(outline) => {
            let spliced = remove_step_spliced(source, &outline, pattern_name, index);
            validate_result(spliced, parse)
        },
    }
}

/// Replace a step at the given index in a named pattern with new text.
///
/// `parse` parses a source text into its outline, or gives the parser's
/// message: the source is parsed first (a failure is a `ParseError`), and
/// the edited text is parsed again (a failure is an `InvalidResult`).
pub fn replace_step<F: Fn(&str) -> Result<SourceOutline, String>>(
    source: &str,
    pattern_name: &str, index: usize, new_text: &str,
    parse: &F,
) -> (r: Result<String, EditError>)
    requires
        parse_gives_outlines(*parse),
    ensures
        exists|v: Result<SourceOutline, String>|
            #[trigger] call_ensures(*parse, (source,), v) && match v {
                Err(m) => r matches Err(EditError::ParseError { message }) && message@ == m@,
                Ok(o) => checked_outcome(*parse, spec_replace_step(source@, o.blocks@, pattern_name@, index, new_text@), r),
            },
{
    let v = parse(source);
    proof {
        assert(call_ensures(*parse, (source,), v));
    }
    match v {
        Err(m) => Err(EditError::ParseError { message: m }),
        Ok(outline) => {
            let spliced = replace_step_spliced(source, &outline, pattern_name, index, new_text);
            validate_result(spliced, parse)
        },
    }
}

/// Set or add an annotation on a step in a named pattern.
///
/// `annotation` should be the full annotation text (e.g., "vel:110", "gate:0.8").
///
/// `parse` parses a source text into its outline, or gives the parser's
/// message: the source is parsed first (a failure is a `ParseError`), and
/// the edited text is parsed again (a failure is an `InvalidResult`).
pub fn set_annotation<F: Fn(&str) -> Result<SourceOutline, String>>(
    source: &str,
    pattern_name: &str, step_index: usize, annotation: &str,
    parse: &F,
) -> (r: Result<String, EditError>)
    requires
        parse_gives_outlines(*parse),
    ensures
        exists|v: Result<SourceOutline, String>|
            #[trigger] call_ensures(*parse, (source,), v) && match v {
                Err(m) => r matches Err(EditError::ParseError { message }) && message@ == m@,
                Ok(o) => checked_outcome(*parse, spec_set_annotation(source@, o.blocks@, pattern_name@, step_index, annotation@), r),
            },
{
    let v = parse(source);
    proof {
        assert(call_ensures(*parse, (source,), v));
    }
    match v {
        Err(m) => Err(EditError::ParseError { message: m }),
        Ok(outline) => {
            let spliced = set_annotation_spliced(source, &outline, pattern_name, step_index, annotation);
            validate_result(spliced, parse)
        },
    }
}

/// Add a transform to a track's play expression.
///
/// `transform_text` is the transform call (e.g., "reverse", "transpose(2)").
///
/// `parse` parses a source text into its outline, or gives the parser's
/// message: the source is parsed first (a failure is a `ParseError`), and
/// the edited text is parsed again (a failure is an `InvalidResult`).
pub fn add_transform<F: Fn(&str) -> Result<SourceOutline, String>>(
    source: &str,
    track_name: &str, transform_text: &str,
    parse: &F,
) -> (r: Result<String, EditError>)
    requires
        parse_gives_outlines(*parse),
    ensures
        exists|v: Result<SourceOutline, String>|
            #[trigger] call_ensures(*parse, (source,), v) && match v {
                Err(m) => r matches Err(EditError::ParseError { message }) && message@ == m@,
                Ok(o) => checked_outcome(*parse, spec_add_transform(source@, o.blocks@, track_name@, transform_text@), r),
            },
{
    let v = parse(source);
    proof {
        assert(call_ensures(*parse, (source,), v));
    }
    match v {
        Err(m) => Err(EditError::ParseError { message: m }),
        Ok(outline) => {
            let spliced = add_transform_spliced(source, &outline, track_name, transform_text);
            validate_result(spliced, parse)
        },
    }
}

/// Set a parameter on a track block.
///
/// If the parameter already exists, its value is replaced. If not, it is appended
/// to the track declaration line.
///
/// `parse` parses a source text into its outline, or gives the parser's
/// message: the source is parsed first (a failure is a `ParseError`), and
/// the edited text is parsed again (a failure is an `InvalidResult`).
pub fn set_track_param<F: Fn(&str) -> Result<SourceOutline, String>>(
    source: &str,
    track_name: &str, param: &str, value: &str,
    parse: &F,
) -> (r: Result<String, EditError>)
    requires
        parse_gives_outlines(*parse),
    ensures
        exists|v: Result<SourceOutline, String>|
            #[trigger] call_ensures(*parse, (source,), v) && match v {
                Err(m) => r matches Err(EditError::ParseError { message }) && message@ == m@,
                Ok(o) => checked_outcome(*parse, spec_set_track_param(source@, o.blocks@, track_name@, param@, value@), r),
            },
{
    let v = parse(source);
    proof {
        assert(call_ensures(*parse, (source,), v));
    }
    match v {
        Err(m) => Err(EditError::ParseError { message: m }),
        Ok(outline) => {
            let spliced = set_track_param_spliced(source, &outline, track_name, param, value);
            validate_result(spliced, parse)
        },
    }
}

/// Set a global header parameter value.
///
/// Replaces the value of an existing header directive (e.g., "@bpm 120" → "@bpm 140").
///
/// `parse` parses a source text into its outline, or gives the parser's
/// message: the source is parsed first (a failure is a `ParseError`), and
/// the edited text is parsed again (a failure is an `InvalidResult`).
pub fn set_header_param<F: Fn(&str) -> Result<SourceOutline, String>>(
    source: &str,
    param: &str, value: &str,
    parse: &F,
) -> (r: Result<String, EditError>)
    requires
        parse_gives_outlines(*parse),
    ensures
        exists|v: Result<SourceOutline, String>|
            #[trigger] call_ensures(*parse, (source,), v) && match v {
                Err(m) => r matches Err(EditError::ParseError { message }) && message@ == m@,
                Ok(o) => checked_outcome(*parse, spec_set_header_param(source@, o.header_span, param@, value@), r),
            },
{
    let v = parse(source);
    proof {
        assert(call_ensures(*parse, (source,), v));
    }
    match v {
        Err(m) => Err(EditError::ParseError { message: m }),
        Ok(outline) => {
            let spliced = set_header_param_spliced(source, &outline, param, value);
            validate_result(spliced, parse)
        },
    }
}

} // verus!

