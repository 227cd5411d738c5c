//! The wire message schema: one tagged sum carried as JSON with a `type`
//! discriminator, plus the auxiliary records it carries.

use vstd::prelude::*;

verus! {

/// A STUN or TURN endpoint handed to clients for NAT traversal.  Fields
/// that receive no value default to the empty string.
#[derive(Clone, Debug)]
pub struct IceServer {
    pub url: String,
    pub username: String,
    pub password: String,
}

#[verifier::ext_equal]
pub ghost struct IceServerV {
    pub url: Seq<char>,
    pub username: Seq<char>,
    pub password: Seq<char>,
}

impl View for IceServer {
    type V = IceServerV;

    open spec fn view(&self) -> IceServerV {
        IceServerV { url: self.url@, username: self.username@, password: self.password@ }
    }
}

impl DeepView for IceServer {
    type V = IceServerV;

    open spec fn deep_view(&self) -> IceServerV {
        self.view()
    }
}

impl Default for IceServer {
    /// All three fields empty.
    fn default() -> (r: IceServer)
        ensures
            r@ == (IceServerV { url: Seq::<char>::empty(), username: Seq::<char>::empty(),
            password: Seq::<char>::empty() }),
    {
        let r = IceServer { url: String::new(), username: String::new(), password: String::new() };
        r
    }
}

/// A room as the room-list response describes it.
#[derive(Clone, Debug)]
pub struct RoomInfo {
    pub server: String,
    pub viewer_count: usize,
    pub viewers: Vec<String>,
    pub os: String,
    pub version: String,
    pub name: String,
    pub control: bool,
}

#[verifier::ext_equal]
pub ghost struct RoomInfoV {
    pub server: Seq<char>,
    pub viewer_count: usize,
    pub viewers: Seq<Seq<char>>,
    pub os: Seq<char>,
    pub version: Seq<char>,
    pub name: Seq<char>,
    pub control: bool,
}

impl View for RoomInfo {
    type V = RoomInfoV;

    open spec fn view(&self) -> RoomInfoV {
        RoomInfoV {
            server: self.server@,
            viewer_count: self.viewer_count,
            viewers: self.viewers.deep_view(),
            os: self.os@,
            version: self.version@,
            name: self.name@,
            control: self.control,
        }
    }
}

impl DeepView for RoomInfo {
    type V = RoomInfoV;

    open spec fn deep_view(&self) -> RoomInfoV {
        self.view()
    }
}

/// Every message the hub reads or writes.  The discriminator is carried in
/// `snake_case` under the `type` key; payloads are flat.
#[derive(Debug)]
pub enum SignallerMessage {
    Offer { from: String, to: String },
    Answer { from: String, to: String },
    Ice { from: String, to: String },
    Join { from: String, room: String },
    JoinDeclined { to: String, reason: String },
    Start { room: String, name: String, os: String, version: String, control: bool },
    StartResponse { room: String },
    Leave { from: String },
    ServerClosed { to: String, room: String },
    KeepAlive,
    IceServers,
    IceServersResponse { ice_servers: Vec<IceServer> },
    GetRoomList {
        os: Option<String>,
        name: Option<String>,
        version: Option<String>,
        server: Option<String>,
        sort: Option<String>,
        control: Option<bool>,
        page: Option<usize>,
        per_page: Option<usize>,
    },
    RoomListResponse {
        rooms: Vec<(String, RoomInfo)>,
        total_count: usize,
        page: Option<usize>,
        per_page: Option<usize>,
    },
    SubscribeRoomUpdates,
    UnsubscribeRoomUpdates,
    NewRoomNotification { room: String },
}

/// The mathematical shape of a message.
#[verifier::ext_equal]
pub ghost enum MsgV {
    Offer { from: Seq<char>, to: Seq<char> },
    Answer { from: Seq<char>, to: Seq<char> },
    Ice { from: Seq<char>, to: Seq<char> },
    Join { from: Seq<char>, room: Seq<char> },
    JoinDeclined { to: Seq<char>, reason: Seq<char> },
    Start { room: Seq<char>, name: Seq<char>, os: Seq<char>, version: Seq<char>, control: bool },
    StartResponse { room: Seq<char> },
    Leave { from: Seq<char> },
    ServerClosed { to: Seq<char>, room: Seq<char> },
    KeepAlive,
    IceServers,
    IceServersResponse { ice_servers: Seq<IceServerV> },
    GetRoomList {
        os: Option<Seq<char>>,
        name: Option<Seq<char>>,
        version: Option<Seq<char>>,
        server: Option<Seq<char>>,
        sort: Option<Seq<char>>,
        control: Option<bool>,
        page: Option<usize>,
        per_page: Option<usize>,
    },
    RoomListResponse {
        rooms: Seq<(Seq<char>, RoomInfoV)>,
        total_count: usize,
        page: Option<usize>,
        per_page: Option<usize>,
    },
    SubscribeRoomUpdates,
    UnsubscribeRoomUpdates,
    NewRoomNotification { room: Seq<char> },
}

impl View for SignallerMessage {
    type V = MsgV;

    open spec fn view(&self) -> MsgV {
        match self {
            SignallerMessage::Offer { from, to } => MsgV::Offer { from: from@, to: to@ },
            SignallerMessage::Answer { from, to } => MsgV::Answer { from: from@, to: to@ },
            SignallerMessage::Ice { from, to } => MsgV::Ice { from: from@, to: to@ },
            SignallerMessage::Join { from, room } => MsgV::Join { from: from@, room: room@ },
            SignallerMessage::JoinDeclined { to, reason } => MsgV::JoinDeclined {
                to: to@,
                reason: reason@,
            },
            SignallerMessage::Start { room, name, os, version, control } => MsgV::Start {
                room: room@,
                name: name@,
                os: os@,
                version: version@,
                control: *control,
            },
            SignallerMessage::StartResponse { room } => MsgV::StartResponse { room: room@ },
            SignallerMessage::Leave { from } => MsgV::Leave { from: from@ },
            SignallerMessage::ServerClosed { to, room } => MsgV::ServerClosed {
                to: to@,
                room: room@,
            },
            SignallerMessage::KeepAlive => MsgV::KeepAlive,
            SignallerMessage::IceServers => MsgV::IceServers,
            SignallerMessage::IceServersResponse { ice_servers } => MsgV::IceServersResponse {
                ice_servers: ice_servers.deep_view(),
            },
            SignallerMessage::GetRoomList { os, name, version, server, sort, control, page,
            per_page } => MsgV::GetRoomList {
                os: os.deep_view(),
                name: name.deep_view(),
                version: version.deep_view(),
                server: server.deep_view(),
                sort: sort.deep_view(),
                control: *control,
                page: *page,
                per_page: *per_page,
            },
            SignallerMessage::RoomListResponse { rooms, total_count, page, per_page } => MsgV::RoomListResponse {
                rooms: rooms.deep_view(),
                total_count: *total_count,
                page: *page,
                per_page: *per_page,
            },
            SignallerMessage::SubscribeRoomUpdates => MsgV::SubscribeRoomUpdates,
            SignallerMessage::UnsubscribeRoomUpdates => MsgV::UnsubscribeRoomUpdates,
            SignallerMessage::NewRoomNotification { room } => MsgV::NewRoomNotification {
                room: room@,
            },
        }
    }
}

impl DeepView for SignallerMessage {
    type V = MsgV;

    open spec fn deep_view(&self) -> MsgV {
        self.view()
    }
}

} // verus!
