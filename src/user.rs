use vstd::prelude::*;
use crate::text::{decimal_of, push_decimal};

verus! {

/// A change to a user's profile, pushed to the user's live connections.
#[derive(Debug, Clone)]
pub struct AFUserChange {
    pub uid: i64,
    pub name: Option<String>,
    pub email: Option<String>,
    pub metadata: Option<String>,
}

/// A workspace-level notification (a member joined, a permission changed, a mention).
#[derive(Debug, Clone)]
pub struct AFSystemNotification {
    pub id: String,
    pub workspace_id: String,
    pub notification_type: String,
    pub title: String,
    pub message: String,
    pub payload_json: String,
    /// Seconds since the Unix epoch.
    pub created_at: i64,
    /// The recipient, or 0 for a broadcast.
    pub recipient_uid: i64,
}

impl AFSystemNotification {
    /// Whether the notification goes to `uid`: it is addressed to that user
    /// or broadcast to all.
    pub fn is_for(&self, uid: i64) -> (r: bool)
        ensures
            r == (self.recipient_uid == 0 || self.recipient_uid == uid),
    {
        self.recipient_uid == 0 || self.recipient_uid == uid
    }
}

impl AFUserChange {
    /// Whether the change is to the profile of `uid`.
    pub fn is_for(&self, uid: i64) -> (r: bool)
        ensures
            r == (self.uid == uid),
    {
        self.uid == uid
    }
}

/// The user-device key: one user on one device.
#[derive(Debug, Clone)]
pub struct UserDevice {
    device_id: String,
    uid: i64,
}

/// One live connection of a user to the realtime server.
#[derive(Debug, Clone)]
pub struct RealtimeUser {
    pub uid: i64,
    /// The device the user is connected through.
    pub device_id: String,
    /// Milliseconds since the Unix epoch at which the connection was made.
    pub connect_at: i64,
    /// Identifies this connection; a new one is made for each connection.
    pub session_id: String,
    /// The version of the client application.
    pub app_version: String,
}

impl UserDevice {
    pub closed spec fn spec_uid(&self) -> i64 {
        self.uid
    }

    pub closed spec fn spec_device_id(&self) -> Seq<char> {
        self.device_id@
    }

    pub fn new(device_id: &str, uid: i64) -> (r: UserDevice)
        ensures
            r.spec_uid() == uid,
            r.spec_device_id() == device_id@,
    {
        UserDevice { device_id: device_id.to_owned(), uid }
    }

    /// The key of the connection's user and device.
    pub fn of_user(user: &RealtimeUser) -> (r: UserDevice)
        ensures
            r.spec_uid() == user.uid,
            r.spec_device_id() == user.device_id@,
    {
        UserDevice { device_id: user.device_id.clone(), uid: user.uid }
    }

    pub fn uid(&self) -> (r: i64)
        ensures
            r == self.spec_uid(),
    {
        self.uid
    }

    pub fn device_id(&self) -> (r: &str)
        ensures
            r@ == self.spec_device_id(),
    {
        self.device_id.as_str()
    }
}

/// uid, device, session, connection time, app version.
pub type UserView = (i64, Seq<char>, Seq<char>, i64, Seq<char>);

impl View for RealtimeUser {
    type V = UserView;

    open spec fn view(&self) -> UserView {
        (self.uid, self.device_id@, self.session_id@, self.connect_at, self.app_version@)
    }
}

/// `uid:device_id`, the text form of a user-device key.
pub open spec fn user_device_key(uid: i64, device_id: Seq<char>) -> Seq<char> {
    decimal_of(uid as int) + seq![':'] + device_id
}

impl RealtimeUser {
    pub fn new(
        uid: i64,
        device_id: String,
        session_id: String,
        connect_at: i64,
        app_version: String,
    ) -> (r: RealtimeUser)
        ensures
            r.uid == uid,
            r.device_id@ == device_id@,
            r.session_id@ == session_id@,
            r.connect_at == connect_at,
            r.app_version@ == app_version@,
    {
        RealtimeUser { uid, device_id, connect_at, session_id, app_version }
    }

    pub fn duplicate(&self) -> (r: RealtimeUser)
        ensures
            r@ == self@,
    {
        RealtimeUser {
            uid: self.uid,
            device_id: self.device_id.clone(),
            connect_at: self.connect_at,
            session_id: self.session_id.clone(),
            app_version: self.app_version.clone(),
        }
    }

    /// The text form of this connection's user-device key.
    pub fn user_device(&self) -> (r: String)
        ensures
            r@ == user_device_key(self.uid, self.device_id@),
    {
        let mut s = String::new();
        push_decimal(&mut s, self.uid);
        s.append(":");
        s.append(self.device_id.as_str());
        proof {
            reveal_strlit(":");
        }
        assert(s@ == user_device_key(self.uid, self.device_id@));
        s
    }

    /// `uid:<uid>|device_id:<device>|connected_at:<millis>`, for logs.
    pub fn describe(&self) -> (r: String)
        ensures
            r@ == "uid:"@ + decimal_of(self.uid as int) + "|device_id:"@ + self.device_id@
                + "|connected_at:"@ + decimal_of(self.connect_at as int),
    {
        let mut s = String::from_str("uid:");
        push_decimal(&mut s, self.uid);
        s.append("|device_id:");
        s.append(self.device_id.as_str());
        s.append("|connected_at:");
        push_decimal(&mut s, self.connect_at);
        s
    }
}

} // verus!
