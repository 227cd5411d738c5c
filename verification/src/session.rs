//! A live session: one per room, owned by its host.

use vstd::prelude::*;

verus! {

/// The live state of one room.  The host's peer id (`server`) equals the
/// room name; `start_time` is a wall-clock timestamp in milliseconds that
/// the caller reads when the session is created.
pub struct Session {
    pub server: String,
    pub viewers: Vec<String>,
    pub start_time: u64,
    pub server_socket_addr: u64,
    pub name: String,
    pub os: String,
    pub version: String,
    pub control: bool,
}

#[verifier::ext_equal]
pub ghost struct SessionV {
    pub server: Seq<char>,
    pub viewers: Seq<Seq<char>>,
    pub start_time: u64,
    pub server_socket_addr: u64,
    pub name: Seq<char>,
    pub os: Seq<char>,
    pub version: Seq<char>,
    pub control: bool,
}

impl View for Session {
    type V = SessionV;

    open spec fn view(&self) -> SessionV {
        SessionV {
            server: self.server@,
            viewers: self.viewers.deep_view(),
            start_time: self.start_time,
            server_socket_addr: self.server_socket_addr,
            name: self.name@,
            os: self.os@,
            version: self.version@,
            control: self.control,
        }
    }
}

impl DeepView for Session {
    type V = SessionV;

    open spec fn deep_view(&self) -> SessionV {
        self.view()
    }
}

impl Session {
    /// A fresh session with no viewers.
    pub fn new(
        server: String,
        server_socket_addr: u64,
        name: String,
        os: String,
        version: String,
        control: bool,
        start_time: u64,
    ) -> (s: Session)
        ensures
            s@ == (SessionV {
                server: server@,
                viewers: Seq::<Seq<char>>::empty(),
                start_time: start_time,
                server_socket_addr: server_socket_addr,
                name: name@,
                os: os@,
                version: version@,
                control: control,
            }),
    {
        let s = Session {
            server,
            viewers: Vec::new(),
            start_time,
            server_socket_addr,
            name,
            os,
            version,
            control,
        };
        proof {
            assert(s.viewers.deep_view() =~= Seq::<Seq<char>>::empty());
        }
        s
    }
}

} // verus!
