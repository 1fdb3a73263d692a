//! The protocol server: dispatches the four desktop-notification request
//! kinds over the store, owns the keying policy, and says which reply to
//! send and which closed signal to emit. The bus transport itself is a
//! capability of the caller: it hands in the method name and the decoded
//! payload, and carries out the returned reply and signal.

use vstd::prelude::*;

verus! {

use crate::notification::NotificationHints;
use crate::notification::NotificationItem;
use crate::store::Store;

/// Why a notification was closed, as reported in the closed signal.
#[derive(Clone, Copy, Debug, PartialEq, Eq)]
pub enum CloseReason {
    Expired,
    Dismissed,
    Call,
    Undefined,
}

impl CloseReason {
    /// The wire value of this reason.
    pub open spec fn spec_wire_value(self) -> u32 {
        match self {
            CloseReason::Expired => 1u32,
            CloseReason::Dismissed => 2u32,
            CloseReason::Call => 3u32,
            CloseReason::Undefined => 4u32,
        }
    }

    /// The wire value of this reason.
    pub fn wire_value(self) -> (v: u32)
        ensures
            v == self.spec_wire_value(),
    {
        match self {
            CloseReason::Expired => 1,
            CloseReason::Dismissed => 2,
            CloseReason::Call => 3,
            CloseReason::Undefined => 4,
        }
    }
}

/// A failure of the server itself, as opposed to a protocol error reply.
#[derive(Debug, PartialEq, Eq)]
pub enum ServerError {
    /// No bus connection is established, so nothing can be emitted.
    ConnectionUninitialised,
    /// A transport failure, carried as its message.
    UnspecifiedError(String),
    /// The interface description offers no interface to register.
    NoInterfaceInfo,
}

/// The parsed arguments of a Notify request.
pub struct NotifyParams {
    pub app_name: String,
    pub replaces_id: u32,
    pub app_icon: String,
    pub summary: String,
    pub body: String,
    pub actions: Vec<String>,
    pub hints: NotificationHints,
    pub expire_timeout: i32,
}

/// A request payload, already decoded from the transport: the shape the
/// arguments matched, or `Malformed` when they matched none.
pub enum Payload {
    Notify(NotifyParams),
    Id(u32),
    NoArgs,
    Malformed,
}

/// A typed protocol error reply.
#[derive(Debug, PartialEq, Eq)]
pub enum ErrorReply {
    /// The arguments did not match the method's schema.
    InvalidArgs,
    /// The named notification is not present.
    Failed(u32),
    /// The method is not part of the interface; carries the method name.
    UnknownMethod(String),
    /// No key can be issued: the key space is exhausted.
    Exhausted,
}

/// A reply to one request, sent back on its invocation exactly once.
#[derive(Debug, PartialEq, Eq)]
pub enum Reply {
    /// The key assigned to a notification.
    Id(u32),
    /// An empty success reply.
    Empty,
    /// The advertised capability strings.
    Capabilities(Vec<String>),
    /// Server name, vendor, version, and protocol version.
    ServerInformation(String, String, String, String),
    /// A typed error.
    Error(ErrorReply),
}

/// The `NotificationClosed(id, reason)` signal to emit on the bus.
#[derive(Clone, Copy, Debug, PartialEq, Eq)]
pub struct ClosedSignal {
    pub id: u32,
    pub reason: u32,
}

/// The record a Notify request stores under key `k`: the request's
/// arguments, stamped with `k` and the server's clock reading.
pub open spec fn spec_record(p: NotifyParams, now: Option<i64>, k: u32) -> NotificationItem {
    NotificationItem {
        id: k,
        app_name: p.app_name,
        replaces_id: p.replaces_id,
        app_icon: p.app_icon,
        summary: p.summary,
        body: p.body,
        actions: p.actions,
        hints: p.hints,
        expire_timeout: p.expire_timeout,
        timestamp: now,
    }
}

/// The capability strings the server advertises.
pub open spec fn spec_capabilities() -> Seq<Seq<char>> {
    seq!["action-icons"@, "actions"@, "body"@, "body-hyperlinks"@, "persistent"@]
}

/// How a Notify request changes the store and what it replies: a nonzero
/// `replaces_id` naming a live entry overwrites that entry in place and
/// replies with that same id; otherwise the record is appended at the
/// tail under a fresh key, which the reply carries; and when no key can
/// be issued the store is untouched and an error is replied.
pub open spec fn notify_transition(
    pre: Store<NotificationItem>,
    post: Store<NotificationItem>,
    p: NotifyParams,
    now: Option<i64>,
    reply: Reply,
) -> bool {
    if p.replaces_id != 0 && pre.key_seq().contains(p.replaces_id) {
        let i = pre.key_seq().index_of(p.replaces_id);
        &&& reply == Reply::Id(p.replaces_id)
        &&& post.key_seq() == pre.key_seq()
        &&& post.val_seq() == pre.val_seq().update(i, spec_record(p, now, p.replaces_id))
        &&& post.free_list() == pre.free_list()
        &&& post.key_counter() == pre.key_counter()
    } else if pre.spec_next_key() != 0 {
        let k = pre.spec_next_key();
        &&& reply == Reply::Id(k)
        &&& post.key_seq() == pre.key_seq().push(k)
        &&& post.val_seq() == pre.val_seq().push(spec_record(p, now, k))
        &&& (pre.free_list().len() > 0 ==> post.free_list() == pre.free_list().drop_last()
            && post.key_counter() == pre.key_counter())
        &&& (pre.free_list().len() == 0 ==> post.free_list() == pre.free_list()
            && post.key_counter() == pre.key_counter() + 1)
    } else {
        &&& reply == Reply::Error(ErrorReply::Exhausted)
        &&& post == pre
    }
}

/// How a CloseNotification request changes the store, what it replies,
/// and which signal is to be emitted: a live id is removed and retired,
/// an empty reply is sent, and — when the bus name is owned — the closed
/// signal with reason "closed by call" follows; a missing id is a failed
/// error reply with no signal.
pub open spec fn close_transition(
    pre: Store<NotificationItem>,
    post: Store<NotificationItem>,
    id: u32,
    owned: bool,
    reply: Reply,
    sig: Option<ClosedSignal>,
) -> bool {
    if pre.key_seq().contains(id) {
        let i = pre.key_seq().index_of(id);
        &&& reply == Reply::Empty
        &&& post.key_seq() == pre.key_seq().remove(i)
        &&& post.val_seq() == pre.val_seq().remove(i)
        &&& post.free_list() == pre.free_list().push(id)
        &&& post.key_counter() == pre.key_counter()
        &&& sig == (if owned {
            Some(ClosedSignal { id, reason: CloseReason::Call.spec_wire_value() })
        } else {
            None::<ClosedSignal>
        })
    } else {
        &&& reply == Reply::Error(ErrorReply::Failed(id))
        &&& post == pre
        &&& sig == None::<ClosedSignal>
    }
}

/// The protocol server: the store of live notifications plus the
/// bus-ownership state. Ownership moves between exactly two states,
/// unowned and owned; signal emission is possible only while owned.
pub struct Server {
    store: Store<NotificationItem>,
    owned: bool,
}

impl Server {
    /// The store of live notifications.
    pub closed spec fn spec_store(self) -> Store<NotificationItem> {
        self.store
    }

    /// Whether the well-known bus name is currently owned.
    pub closed spec fn is_owned(self) -> bool {
        self.owned
    }

    /// Validity: the store is well formed.
    pub open spec fn wf(self) -> bool {
        self.spec_store().wf()
    }

    /// A server with an empty store, not yet owning the bus name. The
    /// first key it assigns will be 1.
    pub fn new() -> (s: Server)
        ensures
            s.wf(),
            !s.is_owned(),
            s.spec_store().key_seq() == Seq::<u32>::empty(),
            s.spec_store().val_seq() == Seq::<NotificationItem>::empty(),
            s.spec_store().free_list() == Seq::<u32>::empty(),
            s.spec_store().key_counter() == 1,
    {
        Server { store: Store::new(), owned: false }
    }

    /// The store, for the presentation layer to read.
    pub fn get_store(&self) -> (s: &Store<NotificationItem>)
        ensures
            *s == self.spec_store(),
    {
        &self.store
    }

    /// The bus name was acquired: signals can be emitted from now on.
    pub fn name_acquired(&mut self)
        ensures
            final(self).is_owned(),
            final(self).spec_store() == old(self).spec_store(),
    {
        self.owned = true;
    }

    /// The bus name was lost: in-flight work continues, but signal
    /// emission fails from now on.
    pub fn name_lost(&mut self)
        ensures
            !final(self).is_owned(),
            final(self).spec_store() == old(self).spec_store(),
    {
        self.owned = false;
    }

    /// The signal reporting that a notification was closed, ready to
    /// emit; an error when the bus name is not owned, since emission is
    /// impossible then.
    pub fn send_closed(&self, id: u32, reason: CloseReason) -> (r: Result<
        ClosedSignal,
        ServerError,
    >)
        ensures
            self.is_owned() ==> (r matches Ok(sig) && sig == (ClosedSignal {
                id,
                reason: reason.spec_wire_value(),
            })),
            !self.is_owned() ==> (r matches Err(e) && e is ConnectionUninitialised),
    {
        if self.owned {
            Ok(ClosedSignal { id, reason: reason.wire_value() })
        } else {
            Err(ServerError::ConnectionUninitialised)
        }
    }

    /// Place a record per the Notify keying policy: a nonzero
    /// `replaces_id` naming a live entry overwrites that entry in place
    /// (the record takes that id); anything else becomes a new tail entry
    /// under a fresh key (the record takes that key as its id). Returns
    /// the entry's key, or 0 when no key could be issued.
    pub fn handle_insert_notification(&mut self, notification: NotificationItem) -> (id: u32)
        requires
            old(self).wf(),
        ensures
            final(self).wf(),
            final(self).is_owned() == old(self).is_owned(),
            ({
                let rid = notification.replaces_id;
                let pre = old(self).spec_store();
                let post = final(self).spec_store();
                if rid != 0 && pre.key_seq().contains(rid) {
                    let i = pre.key_seq().index_of(rid);
                    &&& id == rid
                    &&& post.key_seq() == pre.key_seq()
                    &&& post.val_seq() == pre.val_seq().update(
                        i,
                        spec_with_id(notification, rid),
                    )
                    &&& post.free_list() == pre.free_list()
                    &&& post.key_counter() == pre.key_counter()
                } else if pre.spec_next_key() != 0 {
                    let k = pre.spec_next_key();
                    &&& id == k
                    &&& post.key_seq() == pre.key_seq().push(k)
                    &&& post.val_seq() == pre.val_seq().push(spec_with_id(notification, k))
                    &&& (pre.free_list().len() > 0 ==> post.free_list()
                        == pre.free_list().drop_last() && post.key_counter()
                        == pre.key_counter())
                    &&& (pre.free_list().len() == 0 ==> post.free_list() == pre.free_list()
                        && post.key_counter() == pre.key_counter() + 1)
                } else {
                    &&& id == 0
                    &&& *final(self) == *old(self)
                }
            }),
    {
        let rid = notification.replaces_id;
        if rid != 0 && self.store.contains(rid) {
            let mut n = notification;
            n.id = rid;
            let _prev = self.store.replace(&rid, n);
            return rid;
        }
        let k = self.store.peek_next_id();
        if k == 0 {
            return 0;
        }
        let mut n = notification;
        n.id = k;
        let k2 = self.store.push_tail(n);
        k2
    }

    /// Handle a Notify request: a payload of the Notify shape is stored
    /// per the keying policy and the assigned id replied; any other
    /// payload is an invalid-arguments error and the store is untouched.
    pub fn on_notify(&mut self, payload: Payload, now: Option<i64>) -> (reply: Reply)
        requires
            old(self).wf(),
        ensures
            final(self).wf(),
            final(self).is_owned() == old(self).is_owned(),
            match payload {
                Payload::Notify(p) => notify_transition(
                    old(self).spec_store(),
                    final(self).spec_store(),
                    p,
                    now,
                    reply,
                ),
                _ => reply == Reply::Error(ErrorReply::InvalidArgs) && *final(self) == *old(self),
            },
    {
        match payload {
            Payload::Notify(p) => {
                let NotifyParams {
                    app_name,
                    replaces_id,
                    app_icon,
                    summary,
                    body,
                    actions,
                    hints,
                    expire_timeout,
                } = p;
                let n = NotificationItem::new(
                    None,
                    app_name,
                    replaces_id,
                    app_icon,
                    summary,
                    body,
                    actions,
                    hints,
                    expire_timeout,
                    now,
                );
                let id = self.handle_insert_notification(n);
                if id == 0 {
                    Reply::Error(ErrorReply::Exhausted)
                } else {
                    Reply::Id(id)
                }
            },
            _ => Reply::Error(ErrorReply::InvalidArgs),
        }
    }

    /// Handle a CloseNotification request: remove the named entry, reply,
    /// and produce the closed signal when one is to be emitted. The
    /// signal follows the reply; when the bus name is not owned, the
    /// emission failure is silent (the close itself already succeeded).
    pub fn on_close_notification(&mut self, payload: Payload) -> (out: (Reply, Option<
        ClosedSignal,
    >))
        requires
            old(self).wf(),
        ensures
            final(self).wf(),
            final(self).is_owned() == old(self).is_owned(),
            match payload {
                Payload::Id(id) => close_transition(
                    old(self).spec_store(),
                    final(self).spec_store(),
                    id,
                    old(self).is_owned(),
                    out.0,
                    out.1,
                ),
                _ => out.0 == Reply::Error(ErrorReply::InvalidArgs) && out.1 == None::<ClosedSignal>
                    && *final(self) == *old(self),
            },
    {
        match payload {
            Payload::Id(id) => {
                let prev = self.store.remove(&id);
                match prev {
                    Ok(Some(_removed)) => {
                        let sig = match self.send_closed(id, CloseReason::Call) {
                            Ok(s) => Some(s),
                            Err(_e) => None,
                        };
                        (Reply::Empty, sig)
                    },
                    Ok(None) => (Reply::Error(ErrorReply::Failed(id)), None),
                    Err(_e) => (Reply::Error(ErrorReply::Failed(id)), None),
                }
            },
            _ => (Reply::Error(ErrorReply::InvalidArgs), None),
        }
    }

    /// The fixed server identity: name, vendor, version, and protocol
    /// version.
    pub fn on_get_server_info() -> (reply: Reply)
        ensures
            reply matches Reply::ServerInformation(n, v, ver, sv) && n@
                == "ShellNotificationServer"@ && v@ == "Shell"@ && ver@ == "1.0"@ && sv@ == "1.2"@,
    {
        Reply::ServerInformation(
            "ShellNotificationServer".to_owned(),
            "Shell".to_owned(),
            "1.0".to_owned(),
            "1.2".to_owned(),
        )
    }

    /// The fixed capability set.
    pub fn on_get_capabilities() -> (reply: Reply)
        ensures
            reply matches Reply::Capabilities(caps) && caps.deep_view() == spec_capabilities(),
    {
        let mut caps: Vec<String> = Vec::new();
        caps.push("action-icons".to_owned());
        caps.push("actions".to_owned());
        caps.push("body".to_owned());
        caps.push("body-hyperlinks".to_owned());
        caps.push("persistent".to_owned());
        proof {
            assert(caps.deep_view() =~= spec_capabilities());
        }
        Reply::Capabilities(caps)
    }

    /// Dispatch one method call: route by method name, validate the
    /// payload against that method's schema, mutate the store, and hand
    /// back the reply together with the signal to emit after it, if any.
    /// An unknown method is an error reply naming the method.
    pub fn handle_method_call(
        &mut self,
        method_name: &str,
        payload: Payload,
        now: Option<i64>,
    ) -> (out: (Reply, Option<ClosedSignal>))
        requires
            old(self).wf(),
        ensures
            final(self).wf(),
            final(self).is_owned() == old(self).is_owned(),
            method_name@ == "GetServerInformation"@ ==> *final(self) == *old(self) && out.1
                == None::<ClosedSignal> && (out.0 matches Reply::ServerInformation(n, v, ver, sv)
                && n@ == "ShellNotificationServer"@ && v@ == "Shell"@ && ver@ == "1.0"@ && sv@
                == "1.2"@),
            method_name@ == "Notify"@ ==> out.1 == None::<ClosedSignal> && (match payload {
                Payload::Notify(p) => notify_transition(
                    old(self).spec_store(),
                    final(self).spec_store(),
                    p,
                    now,
                    out.0,
                ),
                _ => out.0 == Reply::Error(ErrorReply::InvalidArgs) && *final(self) == *old(self),
            }),
            method_name@ == "GetCapabilities"@ ==> *final(self) == *old(self) && out.1
                == None::<ClosedSignal> && (out.0 matches Reply::Capabilities(caps)
                && caps.deep_view() == spec_capabilities()),
            method_name@ == "CloseNotification"@ ==> match payload {
                Payload::Id(id) => close_transition(
                    old(self).spec_store(),
                    final(self).spec_store(),
                    id,
                    old(self).is_owned(),
                    out.0,
                    out.1,
                ),
                _ => out.0 == Reply::Error(ErrorReply::InvalidArgs) && out.1 == None::<ClosedSignal>
                    && *final(self) == *old(self),
            },
            method_name@ != "GetServerInformation"@ && method_name@ != "Notify"@ && method_name@
                != "GetCapabilities"@ && method_name@ != "CloseNotification"@ ==> *final(self)
                == *old(self) && out.1 == None::<ClosedSignal> && (out.0 matches Reply::Error(e)
                && e matches ErrorReply::UnknownMethod(m) && m@ == method_name@),
    {
        proof {
            reveal_strlit("GetServerInformation");
            reveal_strlit("Notify");
            reveal_strlit("GetCapabilities");
            reveal_strlit("CloseNotification");
            assert(("GetServerInformation"@).len() == 20);
            assert(("Notify"@).len() == 6);
            assert(("GetCapabilities"@).len() == 15);
            assert(("CloseNotification"@).len() == 17);
        }
        let m: String = method_name.to_owned();
        if m == "GetServerInformation".to_owned() {
            (Self::on_get_server_info(), None)
        } else if m == "Notify".to_owned() {
            (self.on_notify(payload, now), None)
        } else if m == "GetCapabilities".to_owned() {
            (Self::on_get_capabilities(), None)
        } else if m == "CloseNotification".to_owned() {
            self.on_close_notification(payload)
        } else {
            (Reply::Error(ErrorReply::UnknownMethod(m)), None)
        }
    }
}

/// The given record with its identifier replaced by `k`.
pub open spec fn spec_with_id(n: NotificationItem, k: u32) -> NotificationItem {
    NotificationItem {
        id: k,
        app_name: n.app_name,
        replaces_id: n.replaces_id,
        app_icon: n.app_icon,
        summary: n.summary,
        body: n.body,
        actions: n.actions,
        hints: n.hints,
        expire_timeout: n.expire_timeout,
        timestamp: n.timestamp,
    }
}

} // verus!
