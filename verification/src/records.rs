//! The typed record tree that extraction produces, and the error
//! taxonomy of contract violations, each with a mathematical view.

use vstd::prelude::*;

verus! {

/// View of an optional string.
pub open spec fn opt_view(o: Option<String>) -> Option<Seq<char>> {
    match o {
        Some(s) => Some(s@),
        None => None,
    }
}

/// View of a list of strings.
pub open spec fn strs_view(v: Seq<String>) -> Seq<Seq<char>> {
    v.map_values(|s: String| s@)
}

/// One poll choice: its display text and its displayed percentage.
#[derive(Debug, PartialEq)]
pub struct PollItem {
    pub text: String,
    pub percentage: String,
}

pub struct PollItemV {
    pub text: Seq<char>,
    pub percentage: Seq<char>,
}

impl View for PollItem {
    type V = PollItemV;

    open spec fn view(&self) -> PollItemV {
        PollItemV { text: self.text@, percentage: self.percentage@ }
    }
}

/// A poll: total vote count and its choices in presentation order.
#[derive(Debug, PartialEq)]
pub struct PollAttachment {
    pub total_votes: u32,
    pub items: Vec<PollItem>,
}

pub struct PollAttachmentV {
    pub total_votes: u32,
    pub items: Seq<PollItemV>,
}

impl View for PollAttachment {
    type V = PollAttachmentV;

    open spec fn view(&self) -> PollAttachmentV {
        PollAttachmentV {
            total_votes: self.total_votes,
            items: self.items@.map_values(|p: PollItem| p@),
        }
    }
}

/// Media links of the main post, partitioned by link shape.
#[derive(Debug, PartialEq)]
pub struct ContentAttachment {
    pub images: Vec<String>,
    pub videos: Vec<String>,
    pub unknown: Vec<String>,
}

pub struct ContentAttachmentV {
    pub images: Seq<Seq<char>>,
    pub videos: Seq<Seq<char>>,
    pub unknown: Seq<Seq<char>>,
}

impl View for ContentAttachment {
    type V = ContentAttachmentV;

    open spec fn view(&self) -> ContentAttachmentV {
        ContentAttachmentV {
            images: strs_view(self.images@),
            videos: strs_view(self.videos@),
            unknown: strs_view(self.unknown@),
        }
    }
}

/// One comment or reply.
#[derive(Debug, PartialEq)]
pub struct Comment {
    pub author: String,
    pub content: String,
    pub publish_time: String,
    pub sponsor_duration: Option<String>,
    pub sponsor_badge: Option<String>,
    pub like: u32,
}

pub struct CommentV {
    pub author: Seq<char>,
    pub content: Seq<char>,
    pub publish_time: Seq<char>,
    pub sponsor_duration: Option<Seq<char>>,
    pub sponsor_badge: Option<Seq<char>>,
    pub like: u32,
}

impl View for Comment {
    type V = CommentV;

    open spec fn view(&self) -> CommentV {
        CommentV {
            author: self.author@,
            content: self.content@,
            publish_time: self.publish_time@,
            sponsor_duration: opt_view(self.sponsor_duration),
            sponsor_badge: opt_view(self.sponsor_badge),
            like: self.like,
        }
    }
}

/// A comment thread: a top-level comment with its replies; the reply
/// list is absent when the replies region is hidden.
#[derive(Debug, PartialEq)]
pub struct MainComment {
    pub comment: Comment,
    pub replies: Option<Vec<Comment>>,
}

pub struct MainCommentV {
    pub comment: CommentV,
    pub replies: Option<Seq<CommentV>>,
}

impl View for MainComment {
    type V = MainCommentV;

    open spec fn view(&self) -> MainCommentV {
        MainCommentV {
            comment: self.comment@,
            replies: match self.replies {
                Some(rs) => Some(rs@.map_values(|c: Comment| c@)),
                None => None,
            },
        }
    }
}

/// The main post body.
#[derive(Debug, PartialEq)]
pub struct Main {
    pub author: String,
    pub publish_time: String,
    pub sponsor_only: Option<String>,
    pub content: String,
    pub content_attachment: Option<ContentAttachment>,
    pub poll_attachment: Option<PollAttachment>,
    pub like: u32,
}

pub struct MainV {
    pub author: Seq<char>,
    pub publish_time: Seq<char>,
    pub sponsor_only: Option<Seq<char>>,
    pub content: Seq<char>,
    pub content_attachment: Option<ContentAttachmentV>,
    pub poll_attachment: Option<PollAttachmentV>,
    pub like: u32,
}

impl View for Main {
    type V = MainV;

    open spec fn view(&self) -> MainV {
        MainV {
            author: self.author@,
            publish_time: self.publish_time@,
            sponsor_only: opt_view(self.sponsor_only),
            content: self.content@,
            content_attachment: match self.content_attachment {
                Some(c) => Some(c@),
                None => None,
            },
            poll_attachment: match self.poll_attachment {
                Some(p) => Some(p@),
                None => None,
            },
            like: self.like,
        }
    }
}

/// One extracted post record.
#[derive(Debug, PartialEq)]
pub struct Post {
    pub id: String,
    pub main: Main,
    /// Comment threads; absent exactly when comments are disabled on
    /// the source page.
    pub comments: Option<Vec<MainComment>>,
    /// Declared comment count; absent under the same condition.
    pub total_comment: Option<u32>,
}

pub struct PostV {
    pub id: Seq<char>,
    pub main: MainV,
    pub comments: Option<Seq<MainCommentV>>,
    pub total_comment: Option<u32>,
}

impl View for Post {
    type V = PostV;

    open spec fn view(&self) -> PostV {
        PostV {
            id: self.id@,
            main: self.main@,
            comments: match self.comments {
                Some(cs) => Some(cs@.map_values(|c: MainComment| c@)),
                None => None,
            },
            total_comment: self.total_comment,
        }
    }
}

/// A violated extraction contract.
#[allow(inconsistent_fields)]
#[derive(Debug, PartialEq)]
pub enum ErrorKind {
    /// An exactly-one query matched `found` elements instead of one.
    NotExactlyOne { query: String, found: usize },
    /// An at-most-one query matched more than one element.
    MoreThanOne { query: String, found: usize },
    /// A required region matched nothing.
    Missing { query: String },
    /// A required attribute is absent on a matched region.
    MissingAttr { attr: String },
    /// The second top-level child is not the comments region.
    UnexpectedName { found: String },
    /// The comments region is absent without the disabled-comments
    /// indicator.
    IndicatorMissing,
    /// The content stringifier met an inline shape it does not model.
    UnrecognizedInline,
    /// A displayed count failed locale parsing.
    LocaleParse { text: String },
    /// The declared comment count undercuts the visible thread count.
    CountBelowThreads { declared: u32, visible: usize },
}

#[allow(inconsistent_fields)]
pub enum ErrorKindV {
    NotExactlyOne { query: Seq<char>, found: nat },
    MoreThanOne { query: Seq<char>, found: nat },
    Missing { query: Seq<char> },
    MissingAttr { attr: Seq<char> },
    UnexpectedName { found: Seq<char> },
    IndicatorMissing,
    UnrecognizedInline,
    LocaleParse { text: Seq<char> },
    CountBelowThreads { declared: u32, visible: nat },
}

impl View for ErrorKind {
    type V = ErrorKindV;

    open spec fn view(&self) -> ErrorKindV {
        match self {
            ErrorKind::NotExactlyOne { query, found } => ErrorKindV::NotExactlyOne {
                query: query@,
                found: *found as nat,
            },
            ErrorKind::MoreThanOne { query, found } => ErrorKindV::MoreThanOne {
                query: query@,
                found: *found as nat,
            },
            ErrorKind::Missing { query } => ErrorKindV::Missing { query: query@ },
            ErrorKind::MissingAttr { attr } => ErrorKindV::MissingAttr { attr: attr@ },
            ErrorKind::UnexpectedName { found } => ErrorKindV::UnexpectedName { found: found@ },
            ErrorKind::IndicatorMissing => ErrorKindV::IndicatorMissing,
            ErrorKind::UnrecognizedInline => ErrorKindV::UnrecognizedInline,
            ErrorKind::LocaleParse { text } => ErrorKindV::LocaleParse { text: text@ },
            ErrorKind::CountBelowThreads { declared, visible } => ErrorKindV::CountBelowThreads {
                declared: *declared,
                visible: *visible as nat,
            },
        }
    }
}

/// A failed extraction: the violated contract together with the post
/// id it aborted.
#[derive(Debug, PartialEq)]
pub struct ExtractError {
    pub post_id: String,
    pub kind: ErrorKind,
}

pub struct ExtractErrorV {
    pub post_id: Seq<char>,
    pub kind: ErrorKindV,
}

impl View for ExtractError {
    type V = ExtractErrorV;

    open spec fn view(&self) -> ExtractErrorV {
        ExtractErrorV { post_id: self.post_id@, kind: self.kind@ }
    }
}

} // verus!
