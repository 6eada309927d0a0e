//! What evaluation asks of its host.
//!
//! The driver itself neither prints nor reads, and it does not compute with
//! floating-point numbers.  Where a program needs one of these, evaluation
//! stops with a [`Request`]; the host carries it out and hands its [`Reply`]
//! to the driver, which then evaluates the same node again with the replies
//! it has been given so far.

use vstd::prelude::*;
use vstd::string::*;

verus! {

/// An operation on two floating-point numbers.
#[derive(Debug, Clone, Copy, PartialEq, Eq, Structural)]
pub enum FloatOp {
    Add,
    Sub,
    Mul,
    Eq,
}

/// What the host is asked to do.  Numbers are given as decimal text.
#[derive(Debug)]
pub enum Request {
    /// Write the text to standard output; answered by [`Reply::Done`].
    Print(String),
    /// Read one line from standard input; answered by [`Reply::Line`].
    ReadLine,
    /// Compute with two numbers; answered by [`Reply::Float`], or by
    /// [`Reply::Truth`] where the operation is a comparison.
    Float { op: FloatOp, left: String, right: String },
}

/// What the host answers.
#[derive(Debug)]
pub enum Reply {
    Done,
    Line(String),
    Float(String),
    Truth(bool),
}

pub enum RequestView {
    Print(Seq<char>),
    ReadLine,
    Float { op: FloatOp, left: Seq<char>, right: Seq<char> },
}

pub enum ReplyView {
    Done,
    Line(Seq<char>),
    Float(Seq<char>),
    Truth(bool),
}

impl View for Request {
    type V = RequestView;

    open spec fn view(&self) -> RequestView {
        match self {
            Request::Print(s) => RequestView::Print(s@),
            Request::ReadLine => RequestView::ReadLine,
            Request::Float { op, left, right } => RequestView::Float {
                op: *op,
                left: left@,
                right: right@,
            },
        }
    }
}

impl View for Reply {
    type V = ReplyView;

    open spec fn view(&self) -> ReplyView {
        match self {
            Reply::Done => ReplyView::Done,
            Reply::Line(s) => ReplyView::Line(s@),
            Reply::Float(s) => ReplyView::Float(s@),
            Reply::Truth(b) => ReplyView::Truth(*b),
        }
    }
}

/// The contents of a vector of replies.
pub open spec fn reply_views(s: Seq<Reply>) -> Seq<ReplyView> {
    Seq::new(s.len(), |i: int| s[i]@)
}

} // verus!
