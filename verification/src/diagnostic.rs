//! Severity-ranked, richly formatted diagnostics.
//!
//! A [`Diagnostic`] is an immutable report of one issue found in a source
//! file.  Its prose fields are [`FormattedText`]: a small document model of
//! segments rather than a flat string, so that any consumer can render it,
//! with or without decoration.

use crate::source::TextSpan;
use core::cmp::Ordering;
use vstd::prelude::*;
use vstd::std_specs::cmp::PartialOrdSpec;
use vstd::string::StrSliceExecFns;
use vstd::string::StringExecFns;

verus! {

/// A place in one source file: which file, and which character range in it.
#[derive(Clone, Copy, Debug, PartialEq, Eq, Structural, Hash)]
pub struct Location {
    pub file_id: usize,
    pub range: TextSpan,
}

impl Location {
    pub fn new(file_id: usize, range: TextSpan) -> (l: Location)
        ensures
            l.file_id == file_id,
            l.range == range,
    {
        Location { file_id, range }
    }
}

impl Default for Location {
    fn default() -> (l: Self)
        ensures
            l.file_id == 0,
            l.range.start == 0,
            l.range.end == 0,
    {
        Location { file_id: 0, range: TextSpan { start: 0, end: 0 } }
    }
}

/// How bad an issue is.  Severities are totally ordered:
/// `Note < Warning < Error < Bug`.
#[derive(Clone, Copy, Debug, PartialEq, Eq, Structural, Hash)]
pub enum Severity {
    Note,
    Warning,
    Error,
    Bug,
}

/// The place of a severity in the total order; a higher rank is worse.
pub open spec fn severity_rank(s: Severity) -> int {
    match s {
        Severity::Note => 0,
        Severity::Warning => 1,
        Severity::Error => 2,
        Severity::Bug => 3,
    }
}

/// What `a < b` means on severities.
pub open spec fn severity_lt(a: Severity, b: Severity) -> bool {
    severity_rank(a) < severity_rank(b)
}

impl Severity {
    /// The rank of this severity; a higher rank is worse.
    pub fn rank(&self) -> (r: u8)
        ensures
            r as int == severity_rank(*self),
    {
        match self {
            Severity::Note => 0,
            Severity::Warning => 1,
            Severity::Error => 2,
            Severity::Bug => 3,
        }
    }
}

impl PartialOrd for Severity {
    fn partial_cmp(&self, other: &Severity) -> (r: Option<Ordering>) {
        let a = self.rank();
        let b = other.rank();
        if a < b {
            Some(Ordering::Less)
        } else if a == b {
            Some(Ordering::Equal)
        } else {
            Some(Ordering::Greater)
        }
    }
}

impl vstd::std_specs::cmp::PartialOrdSpecImpl for Severity {
    open spec fn obeys_partial_cmp_spec() -> bool {
        true
    }

    open spec fn partial_cmp_spec(&self, other: &Severity) -> Option<Ordering> {
        if severity_rank(*self) < severity_rank(*other) {
            Some(Ordering::Less)
        } else if severity_rank(*self) == severity_rank(*other) {
            Some(Ordering::Equal)
        } else {
            Some(Ordering::Greater)
        }
    }
}

impl Default for Severity {
    fn default() -> (s: Self)
        ensures
            s == Severity::Note,
    {
        Severity::Note
    }
}

/// The severity order is strict and total: `Note < Warning < Error < Bug`
/// holds pairwise, the order is transitive and irreflexive, comparing with
/// `<` agrees with [`severity_lt`], and any severity that is at most
/// `Warning` compares below `Error`.
pub proof fn lemma_severity_order()
    ensures
        severity_lt(Severity::Note, Severity::Warning),
        severity_lt(Severity::Warning, Severity::Error),
        severity_lt(Severity::Error, Severity::Bug),
        forall|a: Severity, b: Severity, c: Severity|
            severity_lt(a, b) && severity_lt(b, c) ==> severity_lt(a, c),
        forall|a: Severity| !severity_lt(a, a),
        forall|a: Severity, b: Severity| severity_lt(a, b) ==> !severity_lt(b, a),
        forall|a: Severity, b: Severity|
            #[trigger] a.partial_cmp_spec(&b) == Some(Ordering::Less) <==> severity_lt(a, b),
        forall|s: Severity|
            s == Severity::Note || s == Severity::Warning ==> severity_lt(s, Severity::Error),
{
}

/// One piece of formatted prose: plain text, inline code, a code block, a
/// nested list, or a paragraph break.
#[derive(Debug, PartialEq, Eq)]
pub enum FormattedTextSegment {
    LineBreak,
    Text(String),
    Code(String),
    CodeBlock(String),
    List(Vec<FormattedText>),
}

/// An ordered sequence of formatted segments.
#[derive(Debug, PartialEq, Eq)]
pub struct FormattedText {
    pub segments: Vec<FormattedTextSegment>,
}

/// The plain rendering of one segment.  Every variant has one: a paragraph
/// break renders as a blank line, code renders as its own text, a code block
/// is indented, and each list entry sits indented on a line of its own.
pub open spec fn spec_segment_text(seg: FormattedTextSegment) -> Seq<char>
    decreases seg,
{
    match seg {
        FormattedTextSegment::LineBreak => "\n\n"@,
        FormattedTextSegment::Text(text) => text@,
        FormattedTextSegment::Code(code) => code@,
        FormattedTextSegment::CodeBlock(code) => "    "@ + code@,
        FormattedTextSegment::List(items) => spec_list_text(items@),
    }
}

/// The plain rendering of a list of formatted texts, one indented line each.
pub open spec fn spec_list_text(items: Seq<FormattedText>) -> Seq<char>
    decreases items,
{
    if items.len() == 0 {
        Seq::empty()
    } else {
        spec_list_text(items.subrange(0, items.len() - 1)) + "    "@ + spec_formatted_text(
            items[items.len() - 1],
        ) + "\n"@
    }
}

/// The plain rendering of a formatted text: its segments' renderings, in
/// order.
pub open spec fn spec_formatted_text(text: FormattedText) -> Seq<char>
    decreases text,
{
    spec_segments_text(text.segments@)
}

/// The plain rendering of a sequence of segments.
pub open spec fn spec_segments_text(segs: Seq<FormattedTextSegment>) -> Seq<char>
    decreases segs,
{
    if segs.len() == 0 {
        Seq::empty()
    } else {
        spec_segments_text(segs.subrange(0, segs.len() - 1)) + spec_segment_text(
            segs[segs.len() - 1],
        )
    }
}

impl FormattedTextSegment {
    /// A plain text segment.
    pub fn text(text: &str) -> (r: Self)
        ensures
            (r matches FormattedTextSegment::Text(s) && s@ == text@),
    {
        FormattedTextSegment::Text(text.to_owned())
    }

    /// An inline code segment.
    pub fn code(code: &str) -> (r: Self)
        ensures
            (r matches FormattedTextSegment::Code(s) && s@ == code@),
    {
        FormattedTextSegment::Code(code.to_owned())
    }

    /// A code block segment.
    pub fn code_block(code: &str) -> (r: Self)
        ensures
            (r matches FormattedTextSegment::CodeBlock(s) && s@ == code@),
    {
        FormattedTextSegment::CodeBlock(code.to_owned())
    }

    /// A nested list segment.
    pub fn list(list: Vec<FormattedText>) -> (r: Self)
        ensures
            (r matches FormattedTextSegment::List(items) && items@ == list@),
    {
        FormattedTextSegment::List(list)
    }

    /// Render this segment as plain text.  Rendering is pure and total:
    /// every segment variant has a defined textual rendering.
    pub fn render(&self) -> (r: String)
        ensures
            r@ == spec_segment_text(*self),
        decreases *self,
    {
        match self {
            FormattedTextSegment::LineBreak => String::from_str("\n\n"),
            FormattedTextSegment::Text(text) => text.clone(),
            FormattedTextSegment::Code(code) => code.clone(),
            FormattedTextSegment::CodeBlock(code) => {
                let mut out = String::from_str("    ");
                out.append(code.as_str());
                out
            },
            FormattedTextSegment::List(items) => {
                let mut out = String::new();
                let mut i: usize = 0;
                proof {
                    assert(items@.subrange(0, 0) =~= Seq::<FormattedText>::empty());
                }
                while i < items.len()
                    invariant
                        i <= items@.len(),
                        out@ == spec_list_text(items@.subrange(0, i as int)),
                        (*self matches FormattedTextSegment::List(v) && v@ == items@),
                    decreases items@.len() - i,
                {
                    proof {
                        assert(decreases_to!(*self => items@[i as int]));
                    }
                    out.append("    ");
                    let piece = items[i].render();
                    out.append(piece.as_str());
                    out.append("\n");
                    proof {
                        let pre = items@.subrange(0, i as int);
                        let post = items@.subrange(0, i as int + 1);
                        assert(post.subrange(0, post.len() - 1) =~= pre);
                        assert(post[post.len() - 1] == items@[i as int]);
                    }
                    i = i + 1;
                }
                proof {
                    assert(items@.subrange(0, items@.len() as int) =~= items@);
                }
                out
            },
        }
    }
}

impl FormattedText {
    /// A formatted text made of the given segments.
    pub fn new(segments: Vec<FormattedTextSegment>) -> (r: Self)
        ensures
            r.segments@ == segments@,
    {
        FormattedText { segments }
    }

    /// Append a plain text segment.
    pub fn text(self, text: &str) -> (r: Self)
        ensures
            r.segments@.len() == self.segments@.len() + 1,
            r.segments@.subrange(0, self.segments@.len() as int) == self.segments@,
            (r.segments@.last() matches FormattedTextSegment::Text(s) && s@ == text@),
            spec_formatted_text(r) == spec_formatted_text(self) + text@,
    {
        let mut out = self;
        out.segments.push(FormattedTextSegment::text(text));
        proof {
            lemma_append_segment_text(self.segments@, out.segments@.last());
            assert(out.segments@.subrange(0, self.segments@.len() as int) =~= self.segments@);
        }
        out
    }

    /// Append an inline code segment.
    pub fn code(self, code: &str) -> (r: Self)
        ensures
            r.segments@.len() == self.segments@.len() + 1,
            r.segments@.subrange(0, self.segments@.len() as int) == self.segments@,
            (r.segments@.last() matches FormattedTextSegment::Code(s) && s@ == code@),
            spec_formatted_text(r) == spec_formatted_text(self) + code@,
    {
        let mut out = self;
        out.segments.push(FormattedTextSegment::code(code));
        proof {
            lemma_append_segment_text(self.segments@, out.segments@.last());
            assert(out.segments@.subrange(0, self.segments@.len() as int) =~= self.segments@);
        }
        out
    }

    /// Append a code block segment, set off by a paragraph break on each
    /// side.
    pub fn code_block(self, code: &str) -> (r: Self)
        ensures
            r.segments@.len() == self.segments@.len() + 3,
            r.segments@.subrange(0, self.segments@.len() as int) == self.segments@,
            r.segments@[self.segments@.len() as int] == FormattedTextSegment::LineBreak,
            (r.segments@[self.segments@.len() as int + 1] matches FormattedTextSegment::CodeBlock(s)
                && s@ == code@),
            r.segments@.last() == FormattedTextSegment::LineBreak,
            spec_formatted_text(r) == spec_formatted_text(self) + "\n\n"@ + "    "@ + code@
                + "\n\n"@,
    {
        let mut out = self;
        out.segments.push(FormattedTextSegment::LineBreak);
        out.segments.push(FormattedTextSegment::code_block(code));
        out.segments.push(FormattedTextSegment::LineBreak);
        proof {
            let s0 = self.segments@;
            let block = out.segments@[s0.len() as int + 1];
            lemma_append_segment_text(s0, FormattedTextSegment::LineBreak);
            lemma_append_segment_text(s0.push(FormattedTextSegment::LineBreak), block);
            lemma_append_segment_text(
                s0.push(FormattedTextSegment::LineBreak).push(block),
                FormattedTextSegment::LineBreak,
            );
            assert(out.segments@ =~= s0.push(FormattedTextSegment::LineBreak).push(block).push(
                FormattedTextSegment::LineBreak,
            ));
            assert(out.segments@.subrange(0, s0.len() as int) =~= s0);
            assert(spec_formatted_text(out) =~= spec_formatted_text(self) + "\n\n"@ + "    "@
                + code@ + "\n\n"@);
        }
        out
    }

    /// Append a nested list segment, set off by a paragraph break on each
    /// side.
    pub fn list(self, list: Vec<FormattedText>) -> (r: Self)
        ensures
            r.segments@.len() == self.segments@.len() + 3,
            r.segments@.subrange(0, self.segments@.len() as int) == self.segments@,
            r.segments@[self.segments@.len() as int] == FormattedTextSegment::LineBreak,
            (r.segments@[self.segments@.len() as int + 1] matches FormattedTextSegment::List(items)
                && items@ == list@),
            r.segments@.last() == FormattedTextSegment::LineBreak,
            spec_formatted_text(r) == spec_formatted_text(self) + "\n\n"@ + spec_list_text(list@)
                + "\n\n"@,
    {
        let ghost items = list@;
        let mut out = self;
        out.segments.push(FormattedTextSegment::LineBreak);
        out.segments.push(FormattedTextSegment::list(list));
        out.segments.push(FormattedTextSegment::LineBreak);
        proof {
            let s0 = self.segments@;
            let block = out.segments@[s0.len() as int + 1];
            lemma_append_segment_text(s0, FormattedTextSegment::LineBreak);
            lemma_append_segment_text(s0.push(FormattedTextSegment::LineBreak), block);
            lemma_append_segment_text(
                s0.push(FormattedTextSegment::LineBreak).push(block),
                FormattedTextSegment::LineBreak,
            );
            assert(out.segments@ =~= s0.push(FormattedTextSegment::LineBreak).push(block).push(
                FormattedTextSegment::LineBreak,
            ));
            assert(out.segments@.subrange(0, s0.len() as int) =~= s0);
            assert(spec_formatted_text(out) =~= spec_formatted_text(self) + "\n\n"@
                + spec_list_text(items) + "\n\n"@);
        }
        out
    }

    /// Append a paragraph break.
    pub fn line_break(self) -> (r: Self)
        ensures
            r.segments@ == self.segments@.push(FormattedTextSegment::LineBreak),
            spec_formatted_text(r) == spec_formatted_text(self) + "\n\n"@,
    {
        let mut out = self;
        out.segments.push(FormattedTextSegment::LineBreak);
        proof {
            lemma_append_segment_text(self.segments@, FormattedTextSegment::LineBreak);
        }
        out
    }

    /// Render this text as plain prose, segment by segment.
    pub fn render(&self) -> (r: String)
        ensures
            r@ == spec_formatted_text(*self),
        decreases *self,
    {
        let mut out = String::new();
        let mut i: usize = 0;
        proof {
            assert(self.segments@.subrange(0, 0) =~= Seq::<FormattedTextSegment>::empty());
        }
        while i < self.segments.len()
            invariant
                i <= self.segments@.len(),
                out@ == spec_segments_text(self.segments@.subrange(0, i as int)),
            decreases self.segments@.len() - i,
        {
            proof {
                assert(decreases_to!(*self => self.segments@[i as int]));
            }
            let piece = self.segments[i].render();
            out.append(piece.as_str());
            proof {
                let pre = self.segments@.subrange(0, i as int);
                let post = self.segments@.subrange(0, i as int + 1);
                assert(post.subrange(0, post.len() - 1) =~= pre);
                assert(post[post.len() - 1] == self.segments@[i as int]);
            }
            i = i + 1;
        }
        proof {
            assert(self.segments@.subrange(0, self.segments@.len() as int) =~= self.segments@);
        }
        out
    }
}

/// Appending one segment appends its rendering.
proof fn lemma_append_segment_text(segs: Seq<FormattedTextSegment>, seg: FormattedTextSegment)
    ensures
        spec_segments_text(segs.push(seg)) == spec_segments_text(segs) + spec_segment_text(seg),
{
    let pushed = segs.push(seg);
    assert(pushed.subrange(0, pushed.len() - 1) =~= segs);
    assert(pushed[pushed.len() - 1] == seg);
}

impl Default for FormattedText {
    fn default() -> (r: Self)
        ensures
            r.segments@.len() == 0,
    {
        FormattedText { segments: Vec::new() }
    }
}

/// A diagnostic: one issue found in a source file, with a location, a
/// severity, a short title and optional formatted prose.  A diagnostic is
/// built once and never mutated afterwards: every builder method returns a
/// new value.
#[derive(Debug, PartialEq, Eq)]
pub struct Diagnostic {
    pub location: Location,
    pub severity: Severity,
    pub title: String,
    pub description: Option<FormattedText>,
    pub message: FormattedText,
    pub hint: Option<FormattedText>,
}

impl Diagnostic {
    pub fn new(
        location: Location,
        severity: Severity,
        title: &str,
        description: Option<FormattedText>,
        message: FormattedText,
        hint: Option<FormattedText>,
    ) -> (d: Diagnostic)
        ensures
            d.location == location,
            d.severity == severity,
            d.title@ == title@,
            d.description == description,
            d.message == message,
            d.hint == hint,
    {
        Diagnostic {
            location,
            severity,
            title: title.to_owned(),
            description,
            message,
            hint,
        }
    }

    /// An otherwise-empty diagnostic of severity `Bug` with the given title.
    pub fn bug(title: &str) -> (d: Diagnostic)
        ensures
            d.severity == Severity::Bug,
            d.title@ == title@,
            d.location == (Location { file_id: 0, range: TextSpan { start: 0, end: 0 } }),
            d.description is None,
            d.message.segments@.len() == 0,
            d.hint is None,
    {
        Diagnostic {
            location: Location::default(),
            severity: Severity::Bug,
            title: title.to_owned(),
            description: None,
            message: FormattedText::default(),
            hint: None,
        }
    }

    /// An otherwise-empty diagnostic of severity `Error` with the given
    /// title.
    pub fn error(title: &str) -> (d: Diagnostic)
        ensures
            d.severity == Severity::Error,
            d.title@ == title@,
            d.location == (Location { file_id: 0, range: TextSpan { start: 0, end: 0 } }),
            d.description is None,
            d.message.segments@.len() == 0,
            d.hint is None,
    {
        Diagnostic {
            location: Location::default(),
            severity: Severity::Error,
            title: title.to_owned(),
            description: None,
            message: FormattedText::default(),
            hint: None,
        }
    }

    /// An otherwise-empty diagnostic of severity `Warning` with the given
    /// title.
    pub fn warning(title: &str) -> (d: Diagnostic)
        ensures
            d.severity == Severity::Warning,
            d.title@ == title@,
            d.location == (Location { file_id: 0, range: TextSpan { start: 0, end: 0 } }),
            d.description is None,
            d.message.segments@.len() == 0,
            d.hint is None,
    {
        Diagnostic {
            location: Location::default(),
            severity: Severity::Warning,
            title: title.to_owned(),
            description: None,
            message: FormattedText::default(),
            hint: None,
        }
    }

    /// An otherwise-empty diagnostic of severity `Note` with the given title.
    pub fn note(title: &str) -> (d: Diagnostic)
        ensures
            d.severity == Severity::Note,
            d.title@ == title@,
            d.location == (Location { file_id: 0, range: TextSpan { start: 0, end: 0 } }),
            d.description is None,
            d.message.segments@.len() == 0,
            d.hint is None,
    {
        Diagnostic {
            location: Location::default(),
            severity: Severity::Note,
            title: title.to_owned(),
            description: None,
            message: FormattedText::default(),
            hint: None,
        }
    }

    /// The same diagnostic with its severity replaced.
    pub fn severity(self, severity: Severity) -> (d: Diagnostic)
        ensures
            d == (Diagnostic { severity, ..self }),
    {
        Diagnostic { severity, ..self }
    }

    /// The same diagnostic with its title replaced.
    pub fn title(self, title: &str) -> (d: Diagnostic)
        ensures
            d.title@ == title@,
            d.location == self.location,
            d.severity == self.severity,
            d.description == self.description,
            d.message == self.message,
            d.hint == self.hint,
    {
        Diagnostic { title: title.to_owned(), ..self }
    }

    /// The same diagnostic with its description replaced.
    pub fn description(self, description: FormattedText) -> (d: Diagnostic)
        ensures
            d == (Diagnostic { description: Some(description), ..self }),
    {
        Diagnostic { description: Some(description), ..self }
    }

    /// The same diagnostic with its message replaced.
    pub fn message(self, message: FormattedText) -> (d: Diagnostic)
        ensures
            d == (Diagnostic { message, ..self }),
    {
        Diagnostic { message, ..self }
    }

    /// The same diagnostic with its location replaced.
    pub fn location(self, location: Location) -> (d: Diagnostic)
        ensures
            d == (Diagnostic { location, ..self }),
    {
        Diagnostic { location, ..self }
    }

    /// The same diagnostic with its hint replaced.
    pub fn hint(self, hint: FormattedText) -> (d: Diagnostic)
        ensures
            d == (Diagnostic { hint: Some(hint), ..self }),
    {
        Diagnostic { hint: Some(hint), ..self }
    }
}

impl Default for Diagnostic {
    fn default() -> (d: Self)
        ensures
            d.severity == Severity::Note,
            d.title@.len() == 0,
            d.location == (Location { file_id: 0, range: TextSpan { start: 0, end: 0 } }),
            d.description is None,
            d.message.segments@.len() == 0,
            d.hint is None,
    {
        Diagnostic {
            location: Location::default(),
            severity: Severity::Note,
            title: String::new(),
            description: None,
            message: FormattedText::default(),
            hint: None,
        }
    }
}

} // verus!
