//! In-memory message storage: uploaded attachments with their binding state,
//! and the persisted messages, kept unique by nonce.
use vstd::prelude::*;

use crate::draft::{texts, Error};


verus! {

/// Most attachments one message may carry.
pub const MAX_ATTACHMENTS: usize = 4;

/// An uploaded file, unbound or bound to the message that owns it.
pub struct Attachment {
    pub id: String,
    pub message_id: Option<String>,
}

pub struct AttachmentView {
    pub id: Seq<char>,
    pub message_id: Option<Seq<char>>,
}

impl View for Attachment {
    type V = AttachmentView;

    open spec fn view(&self) -> AttachmentView {
        AttachmentView {
            id: self.id@,
            message_id: match self.message_id {
                Some(m) => Some(m@),
                None => None,
            },
        }
    }
}

impl Attachment {
    /// A copy of the record.
    pub fn duplicate(&self) -> (r: Attachment)
        ensures
            r@ == self@,
    {
        Attachment {
            id: self.id.clone(),
            message_id: match &self.message_id {
                Some(m) => Some(m.clone()),
                None => None,
            },
        }
    }
}

/// The views of a sequence of attachments.
pub open spec fn attachment_views(v: Seq<Attachment>) -> Seq<AttachmentView> {
    v.map_values(|a: Attachment| a@)
}

/// A persisted message.
pub struct Message {
    pub id: String,
    pub channel: String,
    pub author: String,
    pub content: String,
    pub attachments: Option<Vec<Attachment>>,
    pub nonce: Option<String>,
    pub mentions: Option<Vec<String>>,
}

pub struct MessageView {
    pub id: Seq<char>,
    pub channel: Seq<char>,
    pub author: Seq<char>,
    pub content: Seq<char>,
    pub attachments: Option<Seq<AttachmentView>>,
    pub nonce: Option<Seq<char>>,
    pub mentions: Option<Seq<Seq<char>>>,
}

impl View for Message {
    type V = MessageView;

    open spec fn view(&self) -> MessageView {
        MessageView {
            id: self.id@,
            channel: self.channel@,
            author: self.author@,
            content: self.content@,
            attachments: match self.attachments {
                Some(v) => Some(attachment_views(v@)),
                None => None,
            },
            nonce: match self.nonce {
                Some(n) => Some(n@),
                None => None,
            },
            mentions: match self.mentions {
                Some(v) => Some(texts(v@)),
                None => None,
            },
        }
    }
}

impl Message {
    /// A copy of the message.
    pub fn duplicate(&self) -> (r: Message)
        ensures
            r@ == self@,
    {
        let attachments = match &self.attachments {
            Some(v) => {
                let mut c: Vec<Attachment> = Vec::new();
                let mut i: usize = 0;
                while i < v.len()
                    invariant
                        i <= v@.len(),
                        c@.len() == i,
                        attachment_views(c@) == attachment_views(v@).subrange(0, i as int),
                    decreases v@.len() - i,
                {
                    let ghost prev = c@;
                    let x = v[i].duplicate();
                    c.push(x);
                    assert(c@ == prev.push(x));
                    assert(attachment_views(c@) =~= attachment_views(v@).subrange(0, i + 1));
                    i = i + 1;
                }
                assert(attachment_views(v@).subrange(0, v@.len() as int) =~= attachment_views(v@));
                Some(c)
            },
            None => None,
        };
        let mentions = match &self.mentions {
            Some(v) => {
                let mut c: Vec<String> = Vec::new();
                let mut i: usize = 0;
                while i < v.len()
                    invariant
                        i <= v@.len(),
                        c@.len() == i,
                        texts(c@) == texts(v@).subrange(0, i as int),
                    decreases v@.len() - i,
                {
                    let ghost prev = c@;
                    let x = v[i].clone();
                    c.push(x);
                    assert(c@ == prev.push(x));
                    assert(texts(c@) =~= texts(v@).subrange(0, i + 1));
                    i = i + 1;
                }
                assert(texts(v@).subrange(0, v@.len() as int) =~= texts(v@));
                Some(c)
            },
            None => None,
        };
        Message {
            id: self.id.clone(),
            channel: self.channel.clone(),
            author: self.author.clone(),
            content: self.content.clone(),
            attachments,
            nonce: match &self.nonce {
                Some(n) => Some(n.clone()),
                None => None,
            },
            mentions,
        }
    }
}

/// The stored messages and uploaded attachments.
pub struct Store {
    messages: Vec<Message>,
    files: Vec<Attachment>,
}

pub struct StoreView {
    pub messages: Seq<MessageView>,
    pub files: Seq<AttachmentView>,
}

/// Some message of `msgs` carries `nonce`.
pub open spec fn nonce_taken(msgs: Seq<MessageView>, nonce: Seq<char>) -> bool {
    exists|i: int| 0 <= i < msgs.len() && msgs[i].nonce == Some(nonce)
}

/// No two messages carry the same nonce.
pub open spec fn nonces_unique(msgs: Seq<MessageView>) -> bool {
    forall|i: int, j: int|
        0 <= i < msgs.len() && 0 <= j < msgs.len() && i != j && (#[trigger] msgs[i]).nonce
            is Some ==> (#[trigger] msgs[j]).nonce != msgs[i].nonce
}

/// No two attachments carry the same id.
pub open spec fn ids_unique(files: Seq<AttachmentView>) -> bool {
    forall|i: int, j: int|
        0 <= i < files.len() && 0 <= j < files.len() && i != j ==> (#[trigger] files[i]).id
            != (#[trigger] files[j]).id
}

/// An attachment with this id exists and is unbound.
pub open spec fn bindable(files: Seq<AttachmentView>, id: Seq<char>) -> bool {
    exists|i: int| 0 <= i < files.len() && files[i].id == id && files[i].message_id is None
}

/// Every reference names an unbound attachment, and none is listed twice.
pub open spec fn refs_bindable(files: Seq<AttachmentView>, refs: Seq<Seq<char>>) -> bool {
    &&& forall|k: int| 0 <= k < refs.len() ==> bindable(files, #[trigger] refs[k])
    &&& forall|j: int, k: int| 0 <= j < k < refs.len() ==> refs[j] != refs[k]
}

/// The attachments after binding each one that `refs` names to message `mid`.
pub open spec fn bind_all(
    files: Seq<AttachmentView>,
    refs: Seq<Seq<char>>,
    mid: Seq<char>,
) -> Seq<AttachmentView> {
    files.map_values(
        |a: AttachmentView|
            if refs.contains(a.id) {
                AttachmentView { id: a.id, message_id: Some(mid) }
            } else {
                a
            },
    )
}

/// The records of the attachments `refs`, bound to message `mid`, in order.
pub open spec fn bound_records(refs: Seq<Seq<char>>, mid: Seq<char>) -> Seq<AttachmentView> {
    refs.map_values(|r: Seq<char>| AttachmentView { id: r, message_id: Some(mid) })
}

impl View for Store {
    type V = StoreView;

    closed spec fn view(&self) -> StoreView {
        StoreView {
            messages: self.messages@.map_values(|m: Message| m@),
            files: attachment_views(self.files@),
        }
    }
}

impl Store {
    /// Attachment ids and message nonces are each unique.
    pub open spec fn wf(&self) -> bool {
        ids_unique(self@.files) && nonces_unique(self@.messages)
    }

    /// An empty store.
    pub fn new() -> (r: Store)
        ensures
            r.wf(),
            r@.messages.len() == 0,
            r@.files.len() == 0,
    {
        let r = Store { messages: Vec::new(), files: Vec::new() };
        assert(r@.messages =~= Seq::empty());
        assert(r@.files =~= Seq::empty());
        r
    }

    /// Position of the attachment with this id, if any.
    fn position_of(&self, id: &String) -> (r: Option<usize>)
        requires
            self.wf(),
        ensures
            r matches Some(i) ==> i < self@.files.len() && self@.files[i as int].id == id@,
            r is None ==> forall|i: int| 0 <= i < self@.files.len() ==> self@.files[i].id != id@,
    {
        let mut i: usize = 0;
        while i < self.files.len()
            invariant
                i <= self@.files.len(),
                self@.files.len() == self.files@.len(),
                forall|j: int| 0 <= j < i ==> self@.files[j].id != id@,
            decreases self.files@.len() - i,
        {
            proof {
                assert(self@.files[i as int] == self.files@[i as int]@);
            }
            if self.files[i].id == *id {
                return Some(i);
            }
            i = i + 1;
        }
        None
    }

    /// Records an uploaded, unbound attachment. Fails, leaving the store as
    /// it was, where the id is already in use.
    pub fn upload(&mut self, id: String) -> (r: bool)
        requires
            old(self).wf(),
        ensures
            final(self).wf(),
            final(self)@.messages == old(self)@.messages,
            r == (forall|i: int|
                0 <= i < old(self)@.files.len() ==> old(self)@.files[i].id != id@),
            r ==> final(self)@.files == old(self)@.files.push(
                AttachmentView { id: id@, message_id: None },
            ),
            !r ==> final(self)@.files == old(self)@.files,
    {
        match self.position_of(&id) {
            Some(_) => false,
            None => {
                let ghost before = self@;
                self.files.push(Attachment { id, message_id: None });
                assert(self@.files =~= before.files.push(
                    AttachmentView { id: id@, message_id: None },
                ));
                assert(self@.messages =~= before.messages);
                true
            },
        }
    }

    /// The record of the attachment with this id, if any.
    pub fn attachment(&self, id: &String) -> (r: Option<Attachment>)
        requires
            self.wf(),
        ensures
            r matches Some(a) ==> exists|i: int|
                0 <= i < self@.files.len() && self@.files[i] == a@ && a@.id == id@,
            r is None ==> forall|i: int| 0 <= i < self@.files.len() ==> self@.files[i].id != id@,
    {
        match self.position_of(id) {
            Some(i) => {
                let a = self.files[i].duplicate();
                assert(self@.files[i as int] == self.files@[i as int]@);
                Some(a)
            },
            None => None,
        }
    }

    /// Whether some stored message carries this nonce.
    pub fn has_nonce(&self, nonce: &String) -> (r: bool)
        ensures
            r == nonce_taken(self@.messages, nonce@),
    {
        let mut i: usize = 0;
        while i < self.messages.len()
            invariant
                i <= self.messages@.len(),
                self@.messages.len() == self.messages@.len(),
                forall|j: int| 0 <= j < i ==> self@.messages[j].nonce != Some(nonce@),
            decreases self.messages@.len() - i,
        {
            proof {
                assert(self@.messages[i as int] == self.messages@[i as int]@);
            }
            match &self.messages[i].nonce {
                Some(n) => {
                    if *n == *nonce {
                        return true;
                    }
                },
                None => {},
            }
            i = i + 1;
        }
        false
    }

    /// Binds the attachment `id` to message `mid`, returning its position.
    /// Fails with `InvalidAttachment`, leaving the store as it was, where no
    /// attachment has that id or it is already bound.
    pub fn find_and_use(&mut self, id: &String, mid: &String) -> (r: Result<usize, Error>)
        requires
            old(self).wf(),
        ensures
            final(self).wf(),
            final(self)@.messages == old(self)@.messages,
            r is Ok <==> bindable(old(self)@.files, id@),
            r matches Ok(i) ==> i < old(self)@.files.len() && old(self)@.files[i as int].id == id@
                && final(self)@.files == old(self)@.files.update(
                i as int,
                AttachmentView { id: id@, message_id: Some(mid@) },
            ),
            r is Err ==> r == Err::<usize, Error>(Error::InvalidAttachment) && final(self)@
                == old(self)@,
    {
        match self.position_of(id) {
            Some(i) => {
                proof {
                    assert(self@.files[i as int] == self.files@[i as int]@);
                }
                if self.files[i].message_id.is_some() {
                    proof {
                        assert forall|j: int|
                            0 <= j < self@.files.len() && self@.files[j].id == id@ implies self@.files[j].message_id
                            is Some by {
                            if j != i {
                                assert(self@.files[j].id != self@.files[i as int].id);
                            }
                        }
                    }
                    return Err(Error::InvalidAttachment);
                }
                let ghost before = self@;
                self.files.set(i, Attachment { id: id.clone(), message_id: Some(mid.clone()) });
                assert(self@.files =~= before.files.update(
                    i as int,
                    AttachmentView { id: id@, message_id: Some(mid@) },
                ));
                assert(self@.messages =~= before.messages);
                Ok(i)
            },
            None => Err(Error::InvalidAttachment),
        }
    }

    /// Returns the attachment at position `i` to the unbound state.
    fn unbind(&mut self, i: usize)
        requires
            old(self).wf(),
            i < old(self)@.files.len(),
        ensures
            final(self).wf(),
            final(self)@.messages == old(self)@.messages,
            final(self)@.files == old(self)@.files.update(
                i as int,
                AttachmentView { id: old(self)@.files[i as int].id, message_id: None },
            ),
    {
        let ghost before = self@;
        proof {
            assert(self@.files[i as int] == self.files@[i as int]@);
        }
        let id = self.files[i].id.clone();
        self.files.set(i, Attachment { id, message_id: None });
        assert(self@.files =~= before.files.update(
            i as int,
            AttachmentView { id: before.files[i as int].id, message_id: None },
        ));
        assert(self@.messages =~= before.messages);
    }

    /// Binds each attachment that `refs` names to message `mid`, in order,
    /// and returns their records. Where `refs` lists more than
    /// `MAX_ATTACHMENTS`, fails with `TooManyAttachments` before any binding.
    /// Where a reference is unknown, already bound or listed twice, fails
    /// with `InvalidAttachment` after unbinding those it had bound. On
    /// failure the store is as it was.
    pub fn link_attachments(&mut self, refs: &Vec<String>, mid: &String) -> (r: Result<
        Vec<Attachment>,
        Error,
    >)
        requires
            old(self).wf(),
        ensures
            final(self).wf(),
            final(self)@.messages == old(self)@.messages,
            refs@.len() > MAX_ATTACHMENTS ==> r == Err::<Vec<Attachment>, Error>(
                Error::TooManyAttachments,
            ) && final(self)@ == old(self)@,
            refs@.len() <= MAX_ATTACHMENTS && refs_bindable(old(self)@.files, texts(refs@))
                ==> r is Ok && attachment_views(r->Ok_0@) == bound_records(texts(refs@), mid@)
                && final(self)@.files == bind_all(old(self)@.files, texts(refs@), mid@),
            refs@.len() <= MAX_ATTACHMENTS && !refs_bindable(old(self)@.files, texts(refs@))
                ==> r == Err::<Vec<Attachment>, Error>(Error::InvalidAttachment) && final(self)@
                == old(self)@,
    {
        if refs.len() > MAX_ATTACHMENTS {
            return Err(Error::TooManyAttachments);
        }
        let ghost start = self@;
        let ghost rs = texts(refs@);
        let n = refs.len();
        let mut out: Vec<Attachment> = Vec::new();
        let mut bound: Vec<usize> = Vec::new();
        let mut k: usize = 0;
        assert(start.files =~= bind_all(start.files, rs.subrange(0, 0), mid@));
        assert(attachment_views(out@) =~= bound_records(rs.subrange(0, 0), mid@));
        while k < n
            invariant
                self.wf(),
                start == old(self)@,
                ids_unique(start.files),
                self@.messages == start.messages,
                n == refs@.len(),
                n <= MAX_ATTACHMENTS,
                rs == texts(refs@),
                k <= n,
                self@.files == bind_all(start.files, rs.subrange(0, k as int), mid@),
                refs_bindable(start.files, rs.subrange(0, k as int)),
                attachment_views(out@) == bound_records(rs.subrange(0, k as int), mid@),
                bound@.len() == k,
                out@.len() == k,
                forall|j: int|
                    0 <= j < k ==> (#[trigger] bound@[j]) < start.files.len() && start.files[bound@[j] as int].id
                        == rs[j] && start.files[bound@[j] as int].message_id is None,
            decreases n - k,
        {
            let ghost prev = self@;
            let ghost pre = rs.subrange(0, k as int);
            match self.find_and_use(&refs[k], mid) {
                Ok(i) => {
                    let ghost post = rs.subrange(0, k + 1);
                    proof {
                        assert(rs[k as int] == refs@[k as int]@);
                        let q = choose|q: int|
                            0 <= q < prev.files.len() && prev.files[q].id == rs[k as int]
                                && prev.files[q].message_id is None;
                        assert(q == i);
                        assert(!pre.contains(rs[k as int]));
                        assert(start.files[q] == prev.files[q]);
                        assert forall|j: int| 0 <= j < k implies pre[j] != rs[k as int] by {
                            assert(pre[j] == rs[j]);
                        }
                        assert(post =~= pre.push(rs[k as int]));
                        assert(post[k as int] == rs[k as int]);
                        assert forall|p: int| 0 <= p < self@.files.len() implies self@.files[p]
                            == bind_all(start.files, post, mid@)[p] by {
                            let x = start.files[p].id;
                            if p != i {
                                assert(prev.files[p].id == start.files[p].id);
                                if x == rs[k as int] {
                                    assert(prev.files[p].id == prev.files[i as int].id);
                                }
                                if pre.contains(x) {
                                    let m = choose|m: int| 0 <= m < pre.len() && pre[m] == x;
                                    assert(post[m] == pre[m]);
                                }
                                if post.contains(x) {
                                    let m = choose|m: int| 0 <= m < post.len() && post[m] == x;
                                    assert(m < k);
                                    assert(post[m] == pre[m]);
                                }
                            }
                        }
                        assert(self@.files =~= bind_all(start.files, post, mid@));
                        assert forall|m: int| 0 <= m < post.len() implies bindable(
                            start.files,
                            #[trigger] post[m],
                        ) by {
                            if m < k {
                                assert(post[m] == pre[m]);
                            }
                        }
                        assert forall|a: int, b: int| 0 <= a < b < post.len() implies post[a]
                            != post[b] by {
                            if b < k {
                                assert(post[a] == pre[a] && post[b] == pre[b]);
                            } else {
                                assert(post[a] == pre[a]);
                            }
                        }
                    }
                    let rec = self.files[i].duplicate();
                    proof {
                        assert(self@.files[i as int] == self.files@[i as int]@);
                        assert(rec@ == AttachmentView { id: rs[k as int], message_id: Some(mid@) });
                    }
                    let ghost prev_out = out@;
                    out.push(rec);
                    bound.push(i);
                    proof {
                        assert(out@ == prev_out.push(rec));
                        assert forall|m: int| 0 <= m < k implies attachment_views(out@)[m]
                            == bound_records(post, mid@)[m] by {
                            assert(out@[m] == prev_out[m]);
                            assert(attachment_views(prev_out)[m] == bound_records(pre, mid@)[m]);
                            assert(post[m] == pre[m]);
                        }
                        assert(attachment_views(out@) =~= bound_records(post, mid@));
                    }
                },
                Err(e) => {
                    proof {
                        assert(rs[k as int] == refs@[k as int]@);
                        if refs_bindable(start.files, rs) {
                            assert(bindable(start.files, rs[k as int]));
                            let q = choose|q: int|
                                0 <= q < start.files.len() && start.files[q].id == rs[k as int]
                                    && start.files[q].message_id is None;
                            assert forall|j: int| 0 <= j < k implies pre[j] != rs[k as int] by {
                                assert(pre[j] == rs[j]);
                            }
                            assert(!pre.contains(rs[k as int]));
                            assert(prev.files[q] == start.files[q]);
                        }
                    }
                    self.roll_back(&bound, Ghost(start), Ghost(rs), Ghost(mid@));
                    return Err(e);
                },
            }
            k = k + 1;
        }
        assert(rs.subrange(0, n as int) =~= rs);
        Ok(out)
    }

    /// Unbinds the attachments at the positions `bound`, which a partial
    /// linking of `rs[..bound.len()]` to message `mid` bound.
    fn roll_back(
        &mut self,
        bound: &Vec<usize>,
        Ghost(start): Ghost<StoreView>,
        Ghost(rs): Ghost<Seq<Seq<char>>>,
        Ghost(mid): Ghost<Seq<char>>,
    )
        requires
            old(self).wf(),
            ids_unique(start.files),
            old(self)@.messages == start.messages,
            bound@.len() <= rs.len(),
            old(self)@.files == bind_all(start.files, rs.subrange(0, bound@.len() as int), mid),
            refs_bindable(start.files, rs.subrange(0, bound@.len() as int)),
            forall|j: int|
                0 <= j < bound@.len() ==> (#[trigger] bound@[j]) < start.files.len()
                    && start.files[bound@[j] as int].id == rs[j]
                    && start.files[bound@[j] as int].message_id is None,
        ensures
            final(self).wf(),
            final(self)@ == start,
    {
        let k = bound.len();
        let ghost pre = rs.subrange(0, k as int);
        let mut j: usize = 0;
        assert(pre.subrange(0, k as int) =~= pre);
        while j < k
            invariant
                self.wf(),
                ids_unique(start.files),
                self@.messages == start.messages,
                k == bound@.len(),
                k <= rs.len(),
                pre == rs.subrange(0, k as int),
                j <= k,
                self@.files == bind_all(start.files, pre.subrange(j as int, k as int), mid),
                refs_bindable(start.files, pre),
                forall|m: int|
                    0 <= m < k ==> (#[trigger] bound@[m]) < start.files.len()
                        && start.files[bound@[m] as int].id == rs[m]
                        && start.files[bound@[m] as int].message_id is None,
            decreases k - j,
        {
            let ghost prev = self@;
            let b = bound[j];
            self.unbind(b);
            proof {
                let cur = pre.subrange(j as int, k as int);
                let rest = pre.subrange(j + 1, k as int);
                assert(pre[j as int] == rs[j as int]);
                assert forall|m: int| 0 <= m < rest.len() implies rest[m] != pre[j as int] by {
                    assert(rest[m] == pre[j + 1 + m]);
                }
                assert(!rest.contains(pre[j as int]));
                assert forall|p: int| 0 <= p < self@.files.len() implies self@.files[p]
                    == bind_all(start.files, rest, mid)[p] by {
                    if p != b {
                        if start.files[p].id == pre[j as int] {
                            assert(start.files[p].id == start.files[b as int].id);
                        }
                        if cur.contains(start.files[p].id) {
                            let m = choose|m: int| 0 <= m < cur.len() && cur[m] == start.files[p].id;
                            if m > 0 {
                                assert(rest[m - 1] == cur[m]);
                            }
                        }
                        if rest.contains(start.files[p].id) {
                            let m = choose|m: int| 0 <= m < rest.len() && rest[m] == start.files[p].id;
                            assert(cur[m + 1] == rest[m]);
                        }
                    }
                }
                assert(self@.files =~= bind_all(start.files, rest, mid));
            }
            j = j + 1;
        }
        assert(self@.files =~= start.files);
    }

    /// Persists `msg` unless another stored message carries its nonce, in
    /// which case it fails with `DuplicateNonce` and stores nothing.
    pub fn insert_if_nonce_unique(&mut self, msg: Message) -> (r: Result<(), Error>)
        requires
            old(self).wf(),
        ensures
            final(self).wf(),
            final(self)@.files == old(self)@.files,
            match msg@.nonce {
                Some(n) => nonce_taken(old(self)@.messages, n),
                None => false,
            } ==> r == Err::<(), Error>(Error::DuplicateNonce) && final(self)@ == old(self)@,
            !match msg@.nonce {
                Some(n) => nonce_taken(old(self)@.messages, n),
                None => false,
            } ==> r is Ok && final(self)@.messages == old(self)@.messages.push(msg@),
    {
        let taken = match &msg.nonce {
            Some(n) => self.has_nonce(n),
            None => false,
        };
        if taken {
            return Err(Error::DuplicateNonce);
        }
        let ghost before = self@;
        let ghost m = msg@;
        self.messages.push(msg);
        proof {
            assert(self@.messages =~= before.messages.push(m));
            assert(self@.files =~= before.files);
            assert forall|i: int, j: int|
                0 <= i < self@.messages.len() && 0 <= j < self@.messages.len() && i != j && (
                #[trigger] self@.messages[i]).nonce is Some implies (
                #[trigger] self@.messages[j]).nonce != self@.messages[i].nonce by {
                if i == before.messages.len() as int {
                    assert(self@.messages[j] == before.messages[j]);
                } else if j == before.messages.len() as int {
                    assert(self@.messages[i] == before.messages[i]);
                }
            }
        }
        Ok(())
    }

    /// Number of stored messages.
    pub fn message_count(&self) -> (r: usize)
        ensures
            r == self@.messages.len(),
    {
        self.messages.len()
    }
}

} // verus!
