//! The message-creation pipeline: validate the draft, check the author's
//! permission, reject a reused nonce, bind the attachments, extract the
//! mention, assemble the message and persist it.
use vstd::prelude::*;

use crate::draft::{is_empty_draft, validation_error, Data, DataView, Error};
use crate::mention::{extract_mentions, is_id, mentions_of};
use crate::store::{
    bind_all, bindable, bound_records, nonce_taken, refs_bindable, Message, MessageView, Store,
    StoreView,
    MAX_ATTACHMENTS,
};

verus! {

/// Why a submission of `d` against store `s` is rejected, if it is: the
/// stages run in order and the first that fails decides.
pub open spec fn rejection(s: StoreView, d: DataView, can_send: bool) -> Option<Error> {
    if validation_error(d) is Some {
        validation_error(d)
    } else if is_empty_draft(d) {
        Some(Error::EmptyMessage)
    } else if !can_send {
        Some(Error::MissingPermission)
    } else if nonce_taken(s.messages, d.nonce) {
        Some(Error::DuplicateNonce)
    } else if d.attachments is Some && d.attachments->0.len() > MAX_ATTACHMENTS {
        Some(Error::TooManyAttachments)
    } else if d.attachments is Some && !refs_bindable(s.files, d.attachments->0) {
        Some(Error::InvalidAttachment)
    } else {
        None
    }
}

/// The message that an accepted draft `d` becomes.
pub open spec fn assembled(
    d: DataView,
    author: Seq<char>,
    channel: Seq<char>,
    id: Seq<char>,
) -> MessageView {
    MessageView {
        id,
        channel,
        author,
        content: d.content,
        attachments: match d.attachments {
            Some(refs) => Some(bound_records(refs, id)),
            None => None,
        },
        nonce: Some(d.nonce),
        mentions: if mentions_of(d.content).len() > 0 {
            Some(mentions_of(d.content))
        } else {
            None
        },
    }
}

/// The store after message `m`, made from draft `d`, was persisted.
pub open spec fn committed(s: StoreView, d: DataView, m: MessageView) -> StoreView {
    StoreView {
        messages: s.messages.push(m),
        files: match d.attachments {
            Some(refs) => bind_all(s.files, refs, m.id),
            None => s.files,
        },
    }
}

/// Relies on ulid's `Ulid::generate` and its `to_string`: a fresh identifier
/// from the clock and a random source, written as 26 characters of the
/// base-32 alphabet `0123456789ABCDEFGHJKMNPQRSTVWXYZ`.
#[verifier::external_body]
fn new_message_id() -> (r: String)
    ensures
        is_id(r@),
{
    ulid::Ulid::generate().to_string()
}

/// Runs the pipeline for draft `data` by `author` in `channel` under the
/// message id `id`. `can_send` is the author's send permission in the
/// channel. A rejected submission leaves the store as it was; an accepted one
/// binds the attachments and persists the message, which is returned.
pub fn create_message(
    store: &mut Store,
    data: &Data,
    author: &String,
    channel: &String,
    can_send: bool,
    id: String,
) -> (r: Result<Message, Error>)
    requires
        old(store).wf(),
    ensures
        final(store).wf(),
        match rejection(old(store)@, data@, can_send) {
            Some(e) => r == Err::<Message, Error>(e) && final(store)@ == old(store)@,
            None => r is Ok && r->Ok_0@ == assembled(data@, author@, channel@, id@)
                && final(store)@ == committed(old(store)@, data@, r->Ok_0@),
        },
{
    match data.validate() {
        Err(e) => {
            return Err(e);
        },
        Ok(()) => {},
    }
    if data.is_empty() {
        return Err(Error::EmptyMessage);
    }
    if !can_send {
        return Err(Error::MissingPermission);
    }
    if store.has_nonce(&data.nonce) {
        return Err(Error::DuplicateNonce);
    }
    let ghost start = store@;
    let attachments = match &data.attachments {
        Some(refs) => match store.link_attachments(refs, &id) {
            Ok(v) => Some(v),
            Err(e) => {
                return Err(e);
            },
        },
        None => None,
    };
    let ghost linked = store@;
    let mentions = extract_mentions(data.content.as_str());
    let msg = Message {
        id,
        channel: channel.clone(),
        author: author.clone(),
        content: data.content.clone(),
        attachments,
        nonce: Some(data.nonce.clone()),
        mentions: if mentions.len() > 0 {
            Some(mentions)
        } else {
            None
        },
    };
    assert(msg@ == assembled(data@, author@, channel@, msg.id@));
    let stored = msg.duplicate();
    match store.insert_if_nonce_unique(stored) {
        Ok(()) => {
            assert(store@ == committed(start, data@, msg@));
            Ok(msg)
        },
        Err(e) => Err(e),
    }
}

/// Runs the pipeline under a freshly generated message id: as
/// `create_message`, for the id that the generator handed out.
pub fn req(store: &mut Store, user: &String, channel: &String, can_send: bool, message: &Data) -> (r:
    Result<Message, Error>)
    requires
        old(store).wf(),
    ensures
        final(store).wf(),
        match rejection(old(store)@, message@, can_send) {
            Some(e) => r == Err::<Message, Error>(e) && final(store)@ == old(store)@,
            None => r is Ok && is_id(r->Ok_0@.id) && r->Ok_0@ == assembled(
                message@,
                user@,
                channel@,
                r->Ok_0@.id,
            ) && final(store)@ == committed(old(store)@, message@, r->Ok_0@),
        },
{
    let id = new_message_id();
    create_message(store, message, user, channel, can_send, id)
}

/// A well-formed draft with no text and no attachments is rejected as empty,
/// whatever the store and the permission.
pub proof fn lemma_empty_draft_rejected(s: StoreView, d: DataView, can_send: bool)
    requires
        validation_error(d) is None,
        d.content.len() == 0,
        d.attachments is None,
    ensures
        rejection(s, d, can_send) == Some(Error::EmptyMessage),
{
}

/// A well-formed draft from a permitted author with a fresh nonce that lists
/// five or more attachment references is rejected for having too many; being
/// a rejection, it binds nothing.
pub proof fn lemma_too_many_attachments_rejected(s: StoreView, d: DataView)
    requires
        validation_error(d) is None,
        !nonce_taken(s.messages, d.nonce),
        d.attachments is Some,
        d.attachments->0.len() > MAX_ATTACHMENTS,
    ensures
        rejection(s, d, true) == Some(Error::TooManyAttachments),
{
}

/// Of two submissions that share a nonce, once the first is accepted and
/// persisted, the second is rejected as a duplicate, whichever it is: a nonce
/// is accepted at most once.
pub proof fn lemma_nonce_accepted_once(
    s: StoreView,
    first: DataView,
    second: DataView,
    author: Seq<char>,
    channel: Seq<char>,
    id: Seq<char>,
    can_send: bool,
)
    requires
        rejection(s, first, can_send) is None,
        second.nonce == first.nonce,
        validation_error(second) is None,
        !is_empty_draft(second),
    ensures
        rejection(
            committed(s, first, assembled(first, author, channel, id)),
            second,
            can_send,
        ) == Some(Error::DuplicateNonce),
{
    let after = committed(s, first, assembled(first, author, channel, id));
    assert(after.messages[s.messages.len() as int].nonce == Some(second.nonce));
}

/// A draft whose first of two attachment references can be bound but whose
/// second cannot is rejected as naming an invalid attachment; being a
/// rejection, it leaves the first attachment unbound.
pub proof fn lemma_second_reference_invalid(
    s: StoreView,
    d: DataView,
    first: Seq<char>,
    second: Seq<char>,
)
    requires
        validation_error(d) is None,
        !nonce_taken(s.messages, d.nonce),
        d.attachments == Some(seq![first, second]),
        bindable(s.files, first),
        !bindable(s.files, second),
    ensures
        rejection(s, d, true) == Some(Error::InvalidAttachment),
{
    assert(d.attachments->0[1] == second);
}

/// A submission without send permission is always rejected, so it never
/// reaches persistence.
pub proof fn lemma_denied_never_persisted(s: StoreView, d: DataView)
    ensures
        rejection(s, d, false) is Some,
{
}

} // verus!
