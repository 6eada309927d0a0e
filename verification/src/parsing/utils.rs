//! Grapheme segmentation and the error model shared by all stages.
//!
//! An error records where it happened (a grapheme index and a line/column
//! pair), the source it happened in, and a stack of message lines.  Callers
//! add context on top of the stack as the error travels outwards.

use crate::parsing::text::{
    concat, copy_texts, join, join_texts, nat_text, number_text, repeat, repeat_text, same_text, slice_texts,
    split, split_text, texts,
};
use unicode_segmentation::UnicodeSegmentation;
use vstd::prelude::*;
use vstd::string::*;

verus! {

/// How many graphemes of context a rendered error shows on either side.
pub const ERR_CONTEXT_LEN: usize = 10;

/// The extended grapheme clusters of a text, in order.
pub uninterp spec fn graphemes(text: Seq<char>) -> Seq<Seq<char>>;

/// Cuts `input` into extended grapheme clusters.
///
/// Trusted: this is `UnicodeSegmentation::graphemes(input, true)` collected
/// into a vector.  The contract names the result, the segmentation rules
/// being those of the `unicode-segmentation` crate, and says what its
/// iterator shows of every result: the pieces are consecutive slices of the
/// input from its start to its end, so that, written one after another,
/// they give the input, and none of them is empty.
#[verifier::external_body]
pub fn segment_text(input: &str) -> (r: Vec<&str>)
    ensures
        slice_texts(r@) == graphemes(input@),
        concat(slice_texts(r@)) == input@,
        forall|i: int| 0 <= i < r@.len() ==> (#[trigger] slice_texts(r@)[i]).len() > 0,
{
    UnicodeSegmentation::graphemes(input, true).collect::<Vec<&str>>()
}

/// What an error holds, as plain mathematical data.
pub struct ErrorView {
    pub index: usize,
    pub position: (usize, usize),
    pub source: Seq<Seq<char>>,
    pub message: Seq<Seq<char>>,
}

/// A new error: the message is cut into lines.
pub open spec fn fresh_error(
    message: Seq<char>,
    source: Seq<Seq<char>>,
    index: usize,
    position: (usize, usize),
) -> ErrorView {
    ErrorView { index, position, source, message: split(message, '\n') }
}

/// Every old line indented behind a bar.
pub open spec fn indented(lines: Seq<Seq<char>>) -> Seq<Seq<char>> {
    Seq::new(lines.len(), |i: int| "| "@ + lines[i])
}

/// The error with the lines of `message` put on top of its message stack and
/// every older line indented behind a bar.
pub open spec fn layered(e: ErrorView, message: Seq<char>) -> ErrorView {
    ErrorView { message: split(message, '\n') + indented(e.message), ..e }
}

/// The error with its source replaced.
pub open spec fn sourced(e: ErrorView, source: Seq<Seq<char>>) -> ErrorView {
    ErrorView { source, ..e }
}

/// One past the last grapheme of the context window around `index`.
pub open spec fn window_end(index: int, len: int) -> int {
    if index + ERR_CONTEXT_LEN < len {
        index + ERR_CONTEXT_LEN
    } else {
        len
    }
}

/// First grapheme of the context window around `index`.
pub open spec fn window_start(index: int, len: int) -> int {
    let start = if index >= ERR_CONTEXT_LEN {
        index - ERR_CONTEXT_LEN
    } else {
        0
    };
    if start > window_end(index, len) {
        window_end(index, len)
    } else {
        start
    }
}

/// Whether a grapheme is shown as an escape sequence.
pub open spec fn is_escaped(g: Seq<char>) -> bool {
    g == "\n"@ || g == "\t"@ || g == "\r"@
}

/// How a grapheme is shown in the context window.
pub open spec fn escape(g: Seq<char>) -> Seq<char> {
    if g == "\n"@ {
        "\\n"@
    } else if g == "\t"@ {
        "\\t"@
    } else if g == "\r"@ {
        "\\r"@
    } else {
        g
    }
}

/// The graphemes of a window, escaped and written one after another.
pub open spec fn escaped_line(window: Seq<Seq<char>>) -> Seq<char>
    decreases window.len(),
{
    if window.len() == 0 {
        Seq::empty()
    } else {
        escaped_line(window.drop_last()) + escape(window.last())
    }
}

/// How many graphemes of a window are shown escaped.
pub open spec fn escaped_count(window: Seq<Seq<char>>) -> nat
    decreases window.len(),
{
    if window.len() == 0 {
        0
    } else {
        escaped_count(window.drop_last()) + if is_escaped(window.last()) {
            1nat
        } else {
            0nat
        }
    }
}

/// The diagnostic text of an error of the given kind: a headline with the
/// position, the context window with a marker under it, and the messages.
pub open spec fn rendering(kind: Seq<char>, e: ErrorView) -> Seq<char> {
    let start = window_start(e.index as int, e.source.len() as int);
    let end = window_end(e.index as int, e.source.len() as int);
    let window = e.source.subrange(start, end);
    let tildes = escaped_count(window) + ((end - start) / 2) as nat;
    kind + " error occurred at "@ + nat_text(e.position.0 as nat) + ":"@ + nat_text(
        e.position.1 as nat,
    ) + "\n\n"@ + "[source-string]:\n"@ + "... "@ + escaped_line(window) + " ...\n"@ + "    "@
        + repeat("~"@, tildes) + "^ -- here\n\n"@ + join(e.message, "\n"@) + "\n"@
}

/// What every kind of error offers.
pub trait Error {
    /// The name of the kind of error.
    spec fn kind(&self) -> Seq<char>;

    /// Where, in what, and with which messages.
    spec fn details(&self) -> ErrorView;

    /// Puts the lines of `message` on top of the message stack.
    fn add_layer_top(&mut self, message: &str)
        ensures
            final(self).details() == layered(old(self).details(), message@),
            final(self).kind() == old(self).kind(),
    ;

    fn get_kind(&self) -> (r: &str)
        ensures
            r@ == self.kind(),
    ;

    fn get_index(&self) -> (r: usize)
        ensures
            r == self.details().index,
    ;

    /// The message stack, one line per layer line.
    fn get_message(&self) -> (r: String)
        ensures
            r@ == join(self.details().message, "\n"@),
    ;

    fn get_source(&self) -> (r: &Vec<String>)
        ensures
            texts(r@) == self.details().source,
    ;

    fn get_position(&self) -> (r: (usize, usize))
        ensures
            r == self.details().position,
    ;

    /// The diagnostic text that is shown to the user.
    fn render(&self) -> (r: String)
        ensures
            r@ == rendering(self.kind(), self.details()),
    {
        let source = self.get_source();
        let index = self.get_index();
        let len = source.len();
        let end: usize = if len > index && len - index > ERR_CONTEXT_LEN {
            index + ERR_CONTEXT_LEN
        } else {
            len
        };
        let mut start: usize = if index >= ERR_CONTEXT_LEN {
            index - ERR_CONTEXT_LEN
        } else {
            0
        };
        if start > end {
            start = end;
        }
        let ghost window = texts(source@).subrange(start as int, end as int);
        let mut line = String::new();
        let mut extra: usize = 0;
        let mut i: usize = start;
        while i < end
            invariant
                start <= i <= end <= source.len(),
                window == texts(source@).subrange(start as int, end as int),
                line@ == escaped_line(window.take(i - start)),
                extra == escaped_count(window.take(i - start)),
                extra <= i - start,
            decreases end - i,
        {
            let g = source[i].as_str();
            proof {
                let w = window.take(i - start + 1);
                assert(w.drop_last() =~= window.take(i - start));
                assert(w.last() == g@);
            }
            if same_text(g, "\n") {
                line.append("\\n");
                extra += 1;
            } else if same_text(g, "\t") {
                line.append("\\t");
                extra += 1;
            } else if same_text(g, "\r") {
                line.append("\\r");
                extra += 1;
            } else {
                line.append(g);
            }
            i += 1;
        }
        assert(window.take(end - start) =~= window);
        let pos = self.get_position();
        let mut r = String::from_str(self.get_kind());
        r.append(" error occurred at ");
        r.append(number_text(pos.0).as_str());
        r.append(":");
        r.append(number_text(pos.1).as_str());
        r.append("\n\n");
        r.append("[source-string]:\n");
        r.append("... ");
        r.append(line.as_str());
        r.append(" ...\n");
        r.append("    ");
        r.append(repeat_text("~", extra + (end - start) / 2).as_str());
        r.append("^ -- here\n\n");
        r.append(self.get_message().as_str());
        r.append("\n");
        assert(r@ =~= rendering(self.kind(), self.details()));
        r
    }
}

/// Cuts a message into lines and puts them above the indented older lines.
fn stack_lines(message: &str, older: &Vec<String>) -> (r: Vec<String>)
    ensures
        texts(r@) == split(message@, '\n') + indented(texts(older@)),
{
    let mut r = split_text(message, '\n');
    let ghost top = texts(r@);
    let mut i: usize = 0;
    while i < older.len()
        invariant
            i <= older.len(),
            top == split(message@, '\n'),
            texts(r@) == top + indented(texts(older@)).take(i as int),
        decreases older.len() - i,
    {
        let mut line = String::from_str("| ");
        line.append(older[i].as_str());
        let ghost before = texts(r@);
        r.push(line);
        proof {
            let rest = indented(texts(older@));
            assert(texts(r@) =~= before.push(line@));
            assert(rest.take(i + 1) =~= rest.take(i as int).push(rest[i as int]));
            assert(rest[i as int] == line@);
            assert(texts(r@) =~= top + rest.take(i + 1));
        }
        i += 1;
    }
    assert(indented(texts(older@)).take(older.len() as int) =~= indented(texts(older@)));
    r
}

/// Raised by the lexer.
#[derive(Debug)]
pub struct ParseError {
    index: usize,
    position: (usize, usize),
    source: Vec<String>,
    message: Vec<String>,
}

/// Raised by the parser, which never sees the source: the source is
/// supplied later by whoever reports the error.
#[derive(Debug)]
pub struct SemanticError {
    index: usize,
    position: (usize, usize),
    message: Vec<String>,
    source: Vec<String>,
}

/// Raised by the driver.
#[derive(Debug)]
pub struct RuntimeError {
    index: usize,
    position: (usize, usize),
    source: Vec<String>,
    message: Vec<String>,
}

/// Any of the three kinds of error.
#[derive(Debug)]
pub enum MifulError {
    Parsing(ParseError),
    Semantics(SemanticError),
    Runtime(RuntimeError),
}

/// An error of any kind, as plain mathematical data.
pub enum MifulErrorView {
    Parsing(ErrorView),
    Semantics(ErrorView),
    Runtime(ErrorView),
}

impl MifulErrorView {
    /// Where, in what, and with which messages, whatever the kind.
    pub open spec fn details(self) -> ErrorView {
        match self {
            MifulErrorView::Parsing(e) => e,
            MifulErrorView::Semantics(e) => e,
            MifulErrorView::Runtime(e) => e,
        }
    }

    /// The same kind of error with other details.
    pub open spec fn with_details(self, e: ErrorView) -> MifulErrorView {
        match self {
            MifulErrorView::Parsing(_) => MifulErrorView::Parsing(e),
            MifulErrorView::Semantics(_) => MifulErrorView::Semantics(e),
            MifulErrorView::Runtime(_) => MifulErrorView::Runtime(e),
        }
    }

    /// The error with the lines of `message` on top of its message stack.
    pub open spec fn layered(self, message: Seq<char>) -> MifulErrorView {
        self.with_details(layered(self.details(), message))
    }

    /// A semantic error gets the source; the other kinds already have theirs.
    pub open spec fn sourced(self, source: Seq<Seq<char>>) -> MifulErrorView {
        match self {
            MifulErrorView::Semantics(e) => MifulErrorView::Semantics(sourced(e, source)),
            other => other,
        }
    }

    /// The name of the kind.
    pub open spec fn kind(self) -> Seq<char> {
        match self {
            MifulErrorView::Parsing(_) => "Parse"@,
            MifulErrorView::Semantics(_) => "Semantic"@,
            MifulErrorView::Runtime(_) => "Runtime"@,
        }
    }
}

impl View for ParseError {
    type V = ErrorView;

    closed spec fn view(&self) -> ErrorView {
        ErrorView {
            index: self.index,
            position: self.position,
            source: texts(self.source@),
            message: texts(self.message@),
        }
    }
}

impl View for SemanticError {
    type V = ErrorView;

    closed spec fn view(&self) -> ErrorView {
        ErrorView {
            index: self.index,
            position: self.position,
            source: texts(self.source@),
            message: texts(self.message@),
        }
    }
}

impl View for RuntimeError {
    type V = ErrorView;

    closed spec fn view(&self) -> ErrorView {
        ErrorView {
            index: self.index,
            position: self.position,
            source: texts(self.source@),
            message: texts(self.message@),
        }
    }
}

impl View for MifulError {
    type V = MifulErrorView;

    open spec fn view(&self) -> MifulErrorView {
        match self {
            MifulError::Parsing(e) => MifulErrorView::Parsing(e@),
            MifulError::Semantics(e) => MifulErrorView::Semantics(e@),
            MifulError::Runtime(e) => MifulErrorView::Runtime(e@),
        }
    }
}

impl ParseError {
    pub fn new(message: &str, source: Vec<String>, index: usize, position: (usize, usize)) -> (r:
        ParseError)
        ensures
            r@ == fresh_error(message@, texts(source@), index, position),
    {
        ParseError { index, position, source, message: split_text(message, '\n') }
    }
}

impl Error for ParseError {
    open spec fn kind(&self) -> Seq<char> {
        "Parse"@
    }

    open spec fn details(&self) -> ErrorView {
        self@
    }

    fn add_layer_top(&mut self, message: &str) {
        self.message = stack_lines(message, &self.message);
    }

    fn get_kind(&self) -> (r: &str) {
        "Parse"
    }

    fn get_index(&self) -> (r: usize) {
        self.index
    }

    fn get_message(&self) -> (r: String) {
        join_texts(&self.message, "\n")
    }

    fn get_source(&self) -> (r: &Vec<String>) {
        &self.source
    }

    fn get_position(&self) -> (r: (usize, usize)) {
        self.position
    }
}

impl SemanticError {
    pub fn new(message: &str, index: usize, position: (usize, usize)) -> (r: SemanticError)
        ensures
            r@ == fresh_error(message@, Seq::empty(), index, position),
    {
        let r = SemanticError {
            message: split_text(message, '\n'),
            position,
            index,
            source: Vec::new(),
        };
        assert(texts(r.source@) =~= Seq::empty());
        r
    }

    pub fn supply_source(&mut self, src: &Vec<String>)
        ensures
            final(self)@ == sourced(old(self)@, texts(src@)),
    {
        self.source = copy_texts(src);
    }
}

impl Error for SemanticError {
    open spec fn kind(&self) -> Seq<char> {
        "Semantic"@
    }

    open spec fn details(&self) -> ErrorView {
        self@
    }

    fn add_layer_top(&mut self, message: &str) {
        self.message = stack_lines(message, &self.message);
    }

    fn get_kind(&self) -> (r: &str) {
        "Semantic"
    }

    fn get_index(&self) -> (r: usize) {
        self.index
    }

    fn get_message(&self) -> (r: String) {
        join_texts(&self.message, "\n")
    }

    fn get_source(&self) -> (r: &Vec<String>) {
        &self.source
    }

    fn get_position(&self) -> (r: (usize, usize)) {
        self.position
    }
}

impl RuntimeError {
    pub fn new(message: &str, source: Vec<String>, index: usize, position: (usize, usize)) -> (r:
        RuntimeError)
        ensures
            r@ == fresh_error(message@, texts(source@), index, position),
    {
        RuntimeError { index, position, source, message: split_text(message, '\n') }
    }
}

impl Error for RuntimeError {
    open spec fn kind(&self) -> Seq<char> {
        "Runtime"@
    }

    open spec fn details(&self) -> ErrorView {
        self@
    }

    fn add_layer_top(&mut self, message: &str) {
        self.message = stack_lines(message, &self.message);
    }

    fn get_kind(&self) -> (r: &str) {
        "Runtime"
    }

    fn get_index(&self) -> (r: usize) {
        self.index
    }

    fn get_message(&self) -> (r: String) {
        join_texts(&self.message, "\n")
    }

    fn get_source(&self) -> (r: &Vec<String>) {
        &self.source
    }

    fn get_position(&self) -> (r: (usize, usize)) {
        self.position
    }
}

impl MifulError {
    pub fn parse_error(
        message: &str,
        source: &Vec<String>,
        index: usize,
        position: (usize, usize),
    ) -> (r: MifulError)
        ensures
            r@ == MifulErrorView::Parsing(fresh_error(message@, texts(source@), index, position)),
    {
        MifulError::Parsing(ParseError::new(message, copy_texts(source), index, position))
    }

    pub fn semantic_error(message: &str, index: usize, position: (usize, usize)) -> (r: MifulError)
        ensures
            r@ == MifulErrorView::Semantics(fresh_error(message@, Seq::empty(), index, position)),
    {
        MifulError::Semantics(SemanticError::new(message, index, position))
    }

    pub fn runtime_error(
        message: &str,
        source: &Vec<String>,
        index: usize,
        position: (usize, usize),
    ) -> (r: MifulError)
        ensures
            r@ == MifulErrorView::Runtime(fresh_error(message@, texts(source@), index, position)),
    {
        MifulError::Runtime(RuntimeError::new(message, copy_texts(source), index, position))
    }

    pub fn from_parse_error(e: ParseError) -> (r: MifulError)
        ensures
            r@ == MifulErrorView::Parsing(e@),
    {
        MifulError::Parsing(e)
    }

    pub fn from_semantic_error(e: SemanticError) -> (r: MifulError)
        ensures
            r@ == MifulErrorView::Semantics(e@),
    {
        MifulError::Semantics(e)
    }

    pub fn from_runtime_error(e: RuntimeError) -> (r: MifulError)
        ensures
            r@ == MifulErrorView::Runtime(e@),
    {
        MifulError::Runtime(e)
    }

    /// Puts the lines of `message` on top of the message stack, whatever the
    /// kind of error.
    pub fn add_layer_top(&mut self, message: &str)
        ensures
            final(self)@ == old(self)@.layered(message@),
    {
        match self {
            MifulError::Parsing(e) => {
                e.add_layer_top(message);
            },
            MifulError::Semantics(e) => {
                e.add_layer_top(message);
            },
            MifulError::Runtime(e) => {
                e.add_layer_top(message);
            },
        }
    }

    /// Gives a semantic error its source; other kinds are left as they are.
    pub fn supply_source(&mut self, src: &Vec<String>)
        ensures
            final(self)@ == old(self)@.sourced(texts(src@)),
    {
        match self {
            MifulError::Semantics(e) => {
                e.supply_source(src);
            },
            _ => {},
        }
    }
}

impl Error for MifulError {
    open spec fn kind(&self) -> Seq<char> {
        self@.kind()
    }

    open spec fn details(&self) -> ErrorView {
        self@.details()
    }

    fn add_layer_top(&mut self, message: &str) {
        match self {
            MifulError::Parsing(e) => {
                e.add_layer_top(message);
            },
            MifulError::Semantics(e) => {
                e.add_layer_top(message);
            },
            MifulError::Runtime(e) => {
                e.add_layer_top(message);
            },
        }
    }

    fn get_kind(&self) -> (r: &str) {
        match self {
            MifulError::Parsing(e) => e.get_kind(),
            MifulError::Semantics(e) => e.get_kind(),
            MifulError::Runtime(e) => e.get_kind(),
        }
    }

    fn get_index(&self) -> (r: usize) {
        match self {
            MifulError::Parsing(e) => e.get_index(),
            MifulError::Semantics(e) => e.get_index(),
            MifulError::Runtime(e) => e.get_index(),
        }
    }

    fn get_message(&self) -> (r: String) {
        match self {
            MifulError::Parsing(e) => e.get_message(),
            MifulError::Semantics(e) => e.get_message(),
            MifulError::Runtime(e) => e.get_message(),
        }
    }

    fn get_source(&self) -> (r: &Vec<String>) {
        match self {
            MifulError::Parsing(e) => e.get_source(),
            MifulError::Semantics(e) => e.get_source(),
            MifulError::Runtime(e) => e.get_source(),
        }
    }

    fn get_position(&self) -> (r: (usize, usize)) {
        match self {
            MifulError::Parsing(e) => e.get_position(),
            MifulError::Semantics(e) => e.get_position(),
            MifulError::Runtime(e) => e.get_position(),
        }
    }
}

} // verus!
