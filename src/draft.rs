//! The message draft a client submits, its validation rules, and the errors
//! of the message-creation pipeline.
use vstd::prelude::*;
use vstd::string::*;

verus! {

/// Most characters a message's text may hold.
pub const MAX_CONTENT_LEN: usize = 2000;

/// Most characters a nonce may hold (enough for a ULID or a UUID).
pub const MAX_NONCE_LEN: usize = 36;

/// Most attachment references a draft may list syntactically.
pub const MAX_ATTACHMENT_REFS: usize = 128;

/// Which field of a draft failed validation.
#[derive(Clone, Copy, Debug, PartialEq, Eq, Structural)]
pub enum Field {
    Content,
    Nonce,
    Attachments,
}

/// Why a submission was rejected.
#[derive(Clone, Copy, Debug, PartialEq, Eq, Structural)]
pub enum Error {
    /// A field of the draft is malformed.
    FailedValidation { field: Field },
    /// Neither text nor attachments.
    EmptyMessage,
    /// More attachment references than a message may carry.
    TooManyAttachments,
    /// An attachment reference is unknown, already bound, or listed twice.
    InvalidAttachment,
    /// The author may not send messages in the channel.
    MissingPermission,
    /// A message with the same nonce already exists.
    DuplicateNonce,
}

/// A message as submitted by a client.
pub struct Data {
    pub content: String,
    pub nonce: String,
    pub attachments: Option<Vec<String>>,
}

/// The contents of a draft.
pub struct DataView {
    pub content: Seq<char>,
    pub nonce: Seq<char>,
    pub attachments: Option<Seq<Seq<char>>>,
}

/// The texts of a sequence of strings.
pub open spec fn texts(v: Seq<String>) -> Seq<Seq<char>> {
    v.map_values(|s: String| s@)
}

impl View for Data {
    type V = DataView;

    open spec fn view(&self) -> DataView {
        DataView {
            content: self.content@,
            nonce: self.nonce@,
            attachments: match self.attachments {
                Some(v) => Some(texts(v@)),
                None => None,
            },
        }
    }
}

/// The first field of `d` that breaks its length rules, if any.
pub open spec fn validation_error(d: DataView) -> Option<Error> {
    if d.content.len() > MAX_CONTENT_LEN {
        Some(Error::FailedValidation { field: Field::Content })
    } else if d.nonce.len() < 1 || d.nonce.len() > MAX_NONCE_LEN {
        Some(Error::FailedValidation { field: Field::Nonce })
    } else if d.attachments is Some && (d.attachments->0.len() < 1 || d.attachments->0.len()
        > MAX_ATTACHMENT_REFS) {
        Some(Error::FailedValidation { field: Field::Attachments })
    } else {
        None
    }
}

/// A draft with neither text nor attachment references.
pub open spec fn is_empty_draft(d: DataView) -> bool {
    d.content.len() == 0 && (d.attachments is None || d.attachments->0.len() == 0)
}

impl Data {
    /// A draft from its three fields.
    pub fn new(content: String, nonce: String, attachments: Option<Vec<String>>) -> (r: Data)
        ensures
            r.content == content,
            r.nonce == nonce,
            r.attachments == attachments,
    {
        Data { content, nonce, attachments }
    }

    /// Checks the length rules of each field, in the order content, nonce,
    /// attachments, and names the first field that breaks them.
    pub fn validate(&self) -> (r: Result<(), Error>)
        ensures
            r == (match validation_error(self@) {
                Some(e) => Err(e),
                None => Ok(()),
            }),
    {
        if self.content.as_str().unicode_len() > MAX_CONTENT_LEN {
            return Err(Error::FailedValidation { field: Field::Content });
        }
        let n = self.nonce.as_str().unicode_len();
        if n < 1 || n > MAX_NONCE_LEN {
            return Err(Error::FailedValidation { field: Field::Nonce });
        }
        match &self.attachments {
            Some(v) => {
                if v.len() < 1 || v.len() > MAX_ATTACHMENT_REFS {
                    return Err(Error::FailedValidation { field: Field::Attachments });
                }
            },
            None => {},
        }
        Ok(())
    }

    /// Whether the draft has neither text nor attachment references.
    pub fn is_empty(&self) -> (r: bool)
        ensures
            r == is_empty_draft(self@),
    {
        self.content.as_str().unicode_len() == 0 && match &self.attachments {
            Some(v) => v.len() == 0,
            None => true,
        }
    }
}

} // verus!
