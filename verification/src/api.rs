//! The moderation workflow.
//!
//! `API` consumes one inbound event at a time and returns the outbound
//! actions the platform adapter must perform.  A main-channel message is
//! fingerprinted into the correlation cache; a private forwarded message
//! from an authorized moderator resolves the fingerprint and yields one
//! confirmation prompt carrying an encoded `Callback`; an activation of
//! that control yields the public off-topic notice and an
//! acknowledgement.  Authorization is checked once, at prompt time.
//!
//! Re-activating an already-consumed control is a tracked no-op: the
//! activation is acknowledged, but no second notice is emitted.

use vstd::prelude::*;
use vstd::string::StringExecFns;
use vstd::string::StrSliceExecFns;
use crate::admin::AdminRegistry;
use crate::cache::{Cache, CacheError, CorrelationKey, put_ok_post};
use crate::callback::{Callback, encode_spec, lemma_encode_injective};
use crate::config::Config;

verus! {

broadcast use vstd::string::group_string_axioms;

/// What kind of chat an inbound message arrived in.
#[derive(Clone, Copy, Debug, PartialEq, Eq, Structural)]
pub enum ChatKind {
    Private,
    Group,
    Supergroup,
    Other,
}

/// The forward-origin metadata of an inbound message: the original
/// sender and send time when the origin is a user, or `Other` when the
/// platform reports a different origin kind (a channel, a hidden user).
#[derive(Clone, Copy, Debug, PartialEq, Eq, Structural)]
pub enum ForwardInfo {
    User { sender: i64, date: i64 },
    Other,
}

/// One inbound message, reduced to what the workflow reads.
#[derive(Clone, Copy, Debug, PartialEq, Eq, Structural)]
pub struct MessageRef {
    pub chat: i64,
    pub chat_kind: ChatKind,
    pub sender: i64,
    pub id: i64,
    pub date: i64,
    pub forward: Option<ForwardInfo>,
    pub reply_to: Option<i64>,
}

/// One inbound interactive-control activation.
#[derive(Debug)]
pub struct CallbackRef {
    pub id: String,
    pub data: Option<String>,
}

/// One inbound event.  Event kinds the workflow does not know are
/// `Other` and are ignored.
#[derive(Debug)]
pub enum Event {
    Message(MessageRef),
    CallbackQuery(CallbackRef),
    Other,
}

/// One interactive control on an outbound message.
#[derive(Debug)]
pub enum InlineButton {
    Url { label: String, url: String },
    Callback { label: String, payload: String },
}

/// One outbound message.
#[derive(Debug)]
pub struct OutMessage {
    pub chat: i64,
    pub text: String,
    pub reply_to: Option<i64>,
    pub buttons: Vec<InlineButton>,
    pub markdown: bool,
}

/// One outbound action for the platform adapter to perform.
#[derive(Debug)]
pub enum Outbound {
    Send(OutMessage),
    Acknowledge { callback: String },
}

/// Why handling one event failed.  A failure aborts only that event.
#[derive(Clone, Copy, Debug, PartialEq, Eq, Structural)]
pub enum WorkflowError {
    /// A moderator forwarded a message whose fingerprint is not cached.
    LookupMiss,
    /// An activation carried a payload the codec did not produce.
    Decode,
    /// An encoded payload would exceed the platform's payload limit.
    PayloadTooLong,
    /// The durable correlation store failed for this operation.
    Storage,
}

/// The fingerprint of a message: its sender and timestamp.
pub open spec fn key_of(sender: i64, time: i64) -> CorrelationKey {
    CorrelationKey { sender, time }
}

/// The message identifier a forwarded message resolves to, if its
/// forward origin is a user whose fingerprint is cached.
pub open spec fn resolved_id(cache: Map<CorrelationKey, i64>, m: MessageRef) -> Option<i64> {
    match m.forward {
        Some(ForwardInfo::User { sender, date }) => {
            if cache.contains_key(key_of(sender, date)) {
                Some(cache[key_of(sender, date)])
            } else {
                None
            }
        },
        _ => None,
    }
}

/// Whether a message was observed in the main discussion channel.
pub open spec fn is_main(m: MessageRef, main_group: i64) -> bool {
    (m.chat_kind is Group || m.chat_kind is Supergroup) && m.chat == main_group
}

/// The confirmation prompt's text.
pub open spec fn prompt_text() -> Seq<char> {
    "该消息存在什么问题？"@
}

/// The label of the prompt's single control.
pub open spec fn offtopic_label() -> Seq<char> {
    "离题"@
}

/// The public off-topic notice's text.
pub open spec fn alert_text() -> Seq<char> {
    "\n请勿进行离题讨论，本群仅用于相关话题讨论，无关主题请前往 OT 群\n"@
}

/// The label of the notice's link to the off-topic channel.
pub open spec fn goto_label() -> Seq<char> {
    "跳转到 OT 群"@
}

/// The label of the notice's appeal link.
pub open spec fn appeal_label() -> Seq<char> {
    "申诉"@
}

/// The confirmation prompt for `m`, referencing the resolved identifier
/// `mid`: a reply in the moderator's chat carrying exactly one control
/// whose payload is the encoded token.
pub open spec fn is_prompt(a: Outbound, m: MessageRef, mid: i64) -> bool {
    &&& a matches Outbound::Send(om)
    &&& om.chat == m.chat
    &&& om.reply_to == Some(m.id)
    &&& om.markdown
    &&& om.text@ == prompt_text()
    &&& om.buttons@.len() == 1
    &&& om.buttons@[0] matches InlineButton::Callback { label, payload } && label@
        == offtopic_label() && payload@ == encode_spec(Callback::Offtopic { id: mid })
}

/// The public off-topic notice: a reply to the flagged message in the
/// main channel carrying exactly two link controls.
pub open spec fn is_alert(
    a: Outbound,
    main_group: i64,
    ot_url: Seq<char>,
    meta_url: Seq<char>,
    mid: i64,
) -> bool {
    &&& a matches Outbound::Send(om)
    &&& om.chat == main_group
    &&& om.reply_to == Some(mid)
    &&& om.markdown
    &&& om.text@ == alert_text()
    &&& om.buttons@.len() == 2
    &&& om.buttons@[0] matches InlineButton::Url { label, url } && label@ == goto_label() && url@
        == ot_url
    &&& om.buttons@[1] matches InlineButton::Url { label, url } && label@ == appeal_label() && url@
        == meta_url
}

/// An acknowledgement of the activation with identifier `cb`.
pub open spec fn is_ack(a: Outbound, cb: Seq<char>) -> bool {
    a matches Outbound::Acknowledge { callback } && callback@ == cb
}

/// The workflow controller: the admin snapshot, the correlation cache,
/// the configuration, and the already-consumed control references.
pub struct API {
    pub cfg: Config,
    pub admins: AdminRegistry,
    pub cache: Cache,
    pub consumed: Vec<i64>,
    pub payload_limit: usize,
}

/// The parts of the controller no event handling may change.
pub open spec fn frame(pre: API, post: API) -> bool {
    &&& post.cfg == pre.cfg
    &&& post.admins == pre.admins
    &&& post.payload_limit == pre.payload_limit
    &&& post.cache.is_durable() == pre.cache.is_durable()
}

/// The message identifiers whose notice was already emitted.
pub open spec fn consumed_set(a: API) -> Set<i64> {
    Set::new(|x: i64| a.consumed@.contains(x))
}

/// What handling a private forwarded message yields.  A sender outside
/// the registry gets no action at all; an authorized moderator gets
/// exactly one prompt when the forward resolves and the payload fits,
/// and a distinct error otherwise.  A storage fault can stand in only
/// for the durable backend; with the bounded backend the outcome is
/// fully determined.
pub open spec fn ask_outcome(pre: API, m: MessageRef, r: Result<Vec<Outbound>, WorkflowError>) -> bool {
    &&& !pre.admins@.contains(m.sender) ==> (r matches Ok(v) && v@.len() == 0)
    &&& pre.admins@.contains(m.sender) ==> match r {
        Ok(v) => resolved_id(pre.cache@, m) matches Some(mid) && encode_spec(
            Callback::Offtopic { id: mid },
        ).len() <= pre.payload_limit && v@.len() == 1 && is_prompt(v@[0], m, mid),
        Err(e) => {
            ||| (e == WorkflowError::LookupMiss && resolved_id(pre.cache@, m) is None)
            ||| (e == WorkflowError::PayloadTooLong && (resolved_id(pre.cache@, m) matches Some(
                mid,
            ) && encode_spec(Callback::Offtopic { id: mid }).len() > pre.payload_limit))
            ||| (e == WorkflowError::Storage && pre.cache.is_durable())
        },
    }
    &&& pre.admins@.contains(m.sender) && !pre.cache.is_durable() ==> match resolved_id(
        pre.cache@,
        m,
    ) {
        Some(mid) => if encode_spec(Callback::Offtopic { id: mid }).len() <= pre.payload_limit {
            r is Ok
        } else {
            r == Err::<Vec<Outbound>, WorkflowError>(WorkflowError::PayloadTooLong)
        },
        None => r == Err::<Vec<Outbound>, WorkflowError>(WorkflowError::LookupMiss),
    }
}

/// What handling one inbound message yields: a main-channel message is
/// fingerprinted into the cache and nothing is emitted; a private
/// message without forward metadata is ignored; a private forwarded
/// message follows `ask_outcome`; everything else is ignored.
pub open spec fn message_outcome(
    pre: API,
    post: API,
    m: MessageRef,
    r: Result<Vec<Outbound>, WorkflowError>,
) -> bool {
    &&& frame(pre, post)
    &&& post.consumed@ == pre.consumed@
    &&& m.chat_kind is Private ==> post.cache@ == pre.cache@ && match m.forward {
        None => r matches Ok(v) && v@.len() == 0,
        Some(_) => ask_outcome(pre, m, r),
    }
    &&& is_main(m, pre.cfg.main_group) ==> {
        &&& !pre.cache.is_durable() ==> r is Ok
        &&& match r {
            Ok(v) => v@.len() == 0 && put_ok_post(
                pre.cache@,
                post.cache@,
                key_of(m.sender, m.date),
                m.id,
            ) && (pre.cache.is_durable() ==> post.cache@ == pre.cache@.insert(
                key_of(m.sender, m.date),
                m.id,
            )),
            Err(e) => e == WorkflowError::Storage && pre.cache.is_durable(),
        }
    }
    &&& !(m.chat_kind is Private) && !is_main(m, pre.cfg.main_group) ==> (r matches Ok(v)
        && v@.len() == 0 && post.cache@ == pre.cache@)
}

/// What handling one control activation yields: no payload is ignored;
/// a payload the codec did not produce is a decode error; a decoded
/// token yields the notice and an acknowledgement the first time, and
/// only the acknowledgement — never a second notice — afterwards.
pub open spec fn callback_outcome(
    pre: API,
    post: API,
    c: CallbackRef,
    r: Result<Vec<Outbound>, WorkflowError>,
) -> bool {
    &&& frame(pre, post)
    &&& post.cache@ == pre.cache@
    &&& c.data is None ==> (r matches Ok(v) && v@.len() == 0 && post.consumed@ == pre.consumed@)
    &&& (c.data matches Some(s) && !(exists|t: Callback| s@ == encode_spec(t))) ==> r == Err::<
        Vec<Outbound>,
        WorkflowError,
    >(WorkflowError::Decode) && post.consumed@ == pre.consumed@
    &&& forall|id: i64|
        (c.data matches Some(s) && s@ == #[trigger] encode_spec(Callback::Offtopic { id })) ==> {
            &&& consumed_set(pre).contains(id) ==> (r matches Ok(v) && v@.len() == 1 && is_ack(
                v@[0],
                c.id@,
            ) && post.consumed@ == pre.consumed@)
            &&& !consumed_set(pre).contains(id) ==> (r matches Ok(v) && v@.len() == 2 && is_alert(
                v@[0],
                pre.cfg.main_group,
                pre.cfg.offtopic_group@,
                pre.cfg.meta_group@,
                id,
            ) && is_ack(v@[1], c.id@) && consumed_set(post) == consumed_set(pre).insert(id))
        }
}

/// Whether a vector of identifiers holds `x`.
fn contains_id(v: &Vec<i64>, x: i64) -> (r: bool)
    ensures
        r == v@.contains(x),
{
    let mut i: usize = 0;
    while i < v.len()
        invariant
            0 <= i <= v@.len(),
            forall|j: int| 0 <= j < i ==> v@[j] != x,
        decreases v@.len() - i,
    {
        if v[i] == x {
            return true;
        }
        i = i + 1;
    }
    false
}

impl API {
    /// Structural soundness of the controller.
    pub open spec fn wf(&self) -> bool {
        self.cache.wf()
    }

    /// Builds the controller.  The admin list is the point-in-time
    /// administrator snapshot the adapter fetched at startup — an empty
    /// list (the fail-closed outcome of a failed fetch) authorizes no
    /// one.  `payload_limit` is the platform's bound on control
    /// payloads.
    pub fn new(cfg: Config, admin_ids: Vec<i64>, cache: Cache, payload_limit: usize) -> (r: API)
        requires
            cache.wf(),
        ensures
            r.wf(),
            r.cfg == cfg,
            r.cache == cache,
            r.payload_limit == payload_limit,
            r.consumed@.len() == 0,
            forall|id: i64| r.admins@.contains(id) == admin_ids@.contains(id),
    {
        API {
            cfg,
            admins: AdminRegistry::new(admin_ids),
            cache,
            consumed: Vec::new(),
            payload_limit,
        }
    }

    /// Classifies one inbound event and handles it.
    pub fn handle(&mut self, u: &Event) -> (r: Result<Vec<Outbound>, WorkflowError>)
        requires
            old(self).wf(),
        ensures
            final(self).wf(),
            u matches Event::Message(m) ==> message_outcome(*old(self), *final(self), *m, r),
            u matches Event::CallbackQuery(c) ==> callback_outcome(*old(self), *final(self), *c, r),
            u is Other ==> (r matches Ok(v) && v@.len() == 0 && *final(self) == *old(self)),
    {
        match u {
            Event::Message(m) => self.handle_message(m),
            Event::CallbackQuery(c) => self.handle_callback(c),
            Event::Other => Ok(Vec::new()),
        }
    }

    /// Resolves the original message a forwarded message refers to,
    /// through the correlation cache.  Absence is a normal outcome.
    pub fn get_original_message_id(&mut self, m: &MessageRef) -> (r: Result<
        Option<i64>,
        WorkflowError,
    >)
        requires
            old(self).wf(),
        ensures
            final(self).wf(),
            frame(*old(self), *final(self)),
            final(self).cache@ == old(self).cache@,
            final(self).consumed@ == old(self).consumed@,
            !old(self).cache.is_durable() ==> r is Ok,
            match r {
                Ok(o) => o == resolved_id(old(self).cache@, *m),
                Err(e) => e == WorkflowError::Storage && old(self).cache.is_durable(),
            },
    {
        match &m.forward {
            None => Ok(None),
            Some(ForwardInfo::Other) => Ok(None),
            Some(ForwardInfo::User { sender, date }) => {
                match self.cache.get(CorrelationKey { sender: *sender, time: *date }) {
                    Ok(o) => Ok(o),
                    Err(_) => Err(WorkflowError::Storage),
                }
            },
        }
    }

    /// Handles one inbound message.
    pub fn handle_message(&mut self, m: &MessageRef) -> (r: Result<Vec<Outbound>, WorkflowError>)
        requires
            old(self).wf(),
        ensures
            final(self).wf(),
            message_outcome(*old(self), *final(self), *m, r),
    {
        match m.chat_kind {
            ChatKind::Private => {
                if m.forward.is_none() {
                    // Not a forwarded copy: nothing to moderate.
                    Ok(Vec::new())
                } else {
                    self.ask_admin(m)
                }
            },
            ChatKind::Group | ChatKind::Supergroup => {
                if m.chat == self.cfg.main_group {
                    match self.cache.set(
                        CorrelationKey { sender: m.sender, time: m.date },
                        m.id,
                    ) {
                        Ok(_) => Ok(Vec::new()),
                        Err(_) => Err(WorkflowError::Storage),
                    }
                } else {
                    Ok(Vec::new())
                }
            },
            ChatKind::Other => Ok(Vec::new()),
        }
    }

    /// Handles a private forwarded message: checks authorization,
    /// resolves the fingerprint, and yields the confirmation prompt.
    pub fn ask_admin(&mut self, m: &MessageRef) -> (r: Result<Vec<Outbound>, WorkflowError>)
        requires
            old(self).wf(),
        ensures
            final(self).wf(),
            frame(*old(self), *final(self)),
            final(self).cache@ == old(self).cache@,
            final(self).consumed@ == old(self).consumed@,
            ask_outcome(*old(self), *m, r),
    {
        if !self.admins.is_admin(m.sender) {
            // Authorization denied: no reply at all to the sender.
            return Ok(Vec::new());
        }
        let oid = match self.get_original_message_id(m) {
            Err(e) => {
                return Err(e);
            },
            Ok(None) => {
                return Err(WorkflowError::LookupMiss);
            },
            Ok(Some(oid)) => oid,
        };
        let tok = Callback::Offtopic { id: oid };
        let payload = tok.to_string();
        if payload.as_str().unicode_len() > self.payload_limit {
            return Err(WorkflowError::PayloadTooLong);
        }
        let mut buttons: Vec<InlineButton> = Vec::new();
        buttons.push(InlineButton::Callback { label: "离题".to_owned(), payload });
        let msg = OutMessage {
            chat: m.chat,
            text: "该消息存在什么问题？".to_owned(),
            reply_to: Some(m.id),
            buttons,
            markdown: true,
        };
        let mut out: Vec<Outbound> = Vec::new();
        out.push(Outbound::Send(msg));
        Ok(out)
    }

    /// Handles one control activation.
    pub fn handle_callback(&mut self, c: &CallbackRef) -> (r: Result<Vec<Outbound>, WorkflowError>)
        requires
            old(self).wf(),
        ensures
            final(self).wf(),
            callback_outcome(*old(self), *final(self), *c, r),
    {
        let data = match &c.data {
            None => {
                // Absence of a payload is a normal, non-error outcome.
                return Ok(Vec::new());
            },
            Some(s) => s,
        };
        let tok = match Callback::from_string(data) {
            Err(_) => {
                return Err(WorkflowError::Decode);
            },
            Ok(tok) => tok,
        };
        let id = match tok {
            Callback::Offtopic { id } => id,
        };
        proof {
            assert forall|id2: i64| data@ == encode_spec(Callback::Offtopic { id: id2 }) implies id2
                == id by {
                lemma_encode_injective(Callback::Offtopic { id: id2 }, tok);
            }
        }
        if contains_id(&self.consumed, id) {
            // Already consumed: acknowledge, but never a second notice.
            let mut out: Vec<Outbound> = Vec::new();
            out.push(Outbound::Acknowledge { callback: c.id.clone() });
            Ok(out)
        } else {
            let alert = self.send_ot_alert(id);
            let mut out: Vec<Outbound> = Vec::new();
            out.push(Outbound::Send(alert));
            out.push(Outbound::Acknowledge { callback: c.id.clone() });
            let ghost pre_consumed = self.consumed@;
            self.consumed.push(id);
            proof {
                assert forall|y: i64| consumed_set(*self).contains(y) == (consumed_set(
                    *old(self),
                ).insert(id)).contains(y) by {
                    if pre_consumed.contains(y) {
                        let j = choose|j: int|
                            0 <= j < pre_consumed.len() && pre_consumed[j] == y;
                        assert(self.consumed@[j] == y);
                    }
                    if y == id {
                        assert(self.consumed@[pre_consumed.len() as int] == y);
                    }
                    if self.consumed@.contains(y) {
                        let j = choose|j: int|
                            0 <= j < self.consumed@.len() && self.consumed@[j] == y;
                        if j < pre_consumed.len() {
                            assert(pre_consumed[j] == y);
                        }
                    }
                }
                assert(consumed_set(*self) =~= consumed_set(*old(self)).insert(id));
            }
            Ok(out)
        }
    }

    /// Builds the public off-topic notice for the resolved message.
    pub fn send_ot_alert(&self, original_message_id: i64) -> (a: OutMessage)
        ensures
            is_alert(
                Outbound::Send(a),
                self.cfg.main_group,
                self.cfg.offtopic_group@,
                self.cfg.meta_group@,
                original_message_id,
            ),
    {
        let mut buttons: Vec<InlineButton> = Vec::new();
        buttons.push(
            InlineButton::Url {
                label: "跳转到 OT 群".to_owned(),
                url: self.cfg.offtopic_group.clone(),
            },
        );
        buttons.push(InlineButton::Url { label: "申诉".to_owned(), url: self.cfg.meta_group.clone() });
        OutMessage {
            chat: self.cfg.main_group,
            text: "\n请勿进行离题讨论，本群仅用于相关话题讨论，无关主题请前往 OT 群\n".to_owned(),
            reply_to: Some(original_message_id),
            buttons,
            markdown: true,
        }
    }
}

/// Caching a main-channel message makes a later forward of it resolve
/// to exactly that message: whatever else the cache held, a put of the
/// fingerprint followed by a forward carrying the same origin fields
/// resolves to the identifier that was put.
pub proof fn lemma_cached_then_resolved(
    m0: Map<CorrelationKey, i64>,
    m1: Map<CorrelationKey, i64>,
    u: i64,
    t: i64,
    mid: i64,
    fwd: MessageRef,
)
    requires
        put_ok_post(m0, m1, key_of(u, t), mid),
        fwd.forward == Some(ForwardInfo::User { sender: u, date: t }),
    ensures
        resolved_id(m1, fwd) == Some(mid),
{
}

/// A prompt's payload identifies one message: every token whose wire
/// form equals the encoded reference to `mid` is that reference.
pub proof fn lemma_payload_identifies(mid: i64)
    ensures
        forall|t: Callback|
            #[trigger] encode_spec(t) == encode_spec(Callback::Offtopic { id: mid }) ==> (t
                == (Callback::Offtopic { id: mid })),
{
    assert forall|t: Callback|
        #[trigger] encode_spec(t) == encode_spec(Callback::Offtopic { id: mid }) implies (t
        == (Callback::Offtopic { id: mid })) by {
        lemma_encode_injective(t, Callback::Offtopic { id: mid });
    }
}

} // verus!
