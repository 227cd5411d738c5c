//! The room-list query: sort the live sessions by start time, filter them
//! by the caller's criteria, count, paginate, and describe each surviving
//! room.

use vstd::prelude::*;

use crate::rtc::{RoomInfo, RoomInfoV};
use crate::session::{Session, SessionV};
use crate::state::State;
use crate::text::{lower_of, seq_contains_sub, str_contains, str_eq, to_lowercase};

verus! {

/// Sort-key comparison on sessions: start time, ascending or descending.
pub open spec fn key_le(a: SessionV, b: SessionV, asc: bool) -> bool {
    if asc {
        a.start_time <= b.start_time
    } else {
        a.start_time >= b.start_time
    }
}

/// Insert `x` behind every element it does not have to precede: the
/// insertion step of a stable insertion sort.
pub open spec fn insert_sorted(
    s: Seq<(Seq<char>, SessionV)>,
    x: (Seq<char>, SessionV),
    asc: bool,
) -> Seq<(Seq<char>, SessionV)>
    decreases s.len(),
{
    if s.len() == 0 {
        seq![x]
    } else if key_le(s.last().1, x.1, asc) {
        s.push(x)
    } else {
        insert_sorted(s.drop_last(), x, asc).push(s.last())
    }
}

/// Stable sort by start time: ties keep their relative order.
pub open spec fn sort_spec(s: Seq<(Seq<char>, SessionV)>, asc: bool) -> Seq<(Seq<char>, SessionV)>
    decreases s.len(),
{
    if s.len() == 0 {
        Seq::empty()
    } else {
        insert_sorted(sort_spec(s.drop_last(), asc), s.last(), asc)
    }
}

/// Where the insertion step puts `x`: at the unique position whose left
/// neighbour may stay before `x` and whose right part must not.
pub proof fn lemma_insert_sorted_at(
    s: Seq<(Seq<char>, SessionV)>,
    x: (Seq<char>, SessionV),
    asc: bool,
    p: int,
)
    requires
        0 <= p <= s.len(),
        forall|j: int| p <= j < s.len() ==> !key_le(#[trigger] s[j].1, x.1, asc),
        p > 0 ==> key_le(s[p - 1].1, x.1, asc),
    ensures
        insert_sorted(s, x, asc) == s.take(p).push(x).add(s.skip(p)),
    decreases s.len(),
{
    if s.len() == 0 {
        assert(insert_sorted(s, x, asc) =~= s.take(p).push(x).add(s.skip(p)));
    } else if key_le(s.last().1, x.1, asc) {
        assert(p == s.len());
        assert(s.take(p) =~= s);
        assert(insert_sorted(s, x, asc) =~= s.take(p).push(x).add(s.skip(p)));
    } else {
        assert(p < s.len());
        let dl = s.drop_last();
        assert(forall|j: int| p <= j < dl.len() ==> !key_le(#[trigger] dl[j].1, x.1, asc)) by {
            assert(forall|j: int| 0 <= j < dl.len() ==> dl[j] == s[j]);
        }
        if p > 0 {
            assert(dl[p - 1] == s[p - 1]);
        }
        lemma_insert_sorted_at(dl, x, asc, p);
        assert(insert_sorted(s, x, asc) =~= s.take(p).push(x).add(s.skip(p))) by {
            assert(dl.take(p) =~= s.take(p));
        }
    }
}

/// Non-decreasing under the chosen key order: descending by start time by
/// default, ascending when asked.
pub open spec fn sorted_by_time(s: Seq<(Seq<char>, SessionV)>, asc: bool) -> bool {
    forall|i: int, j: int| 0 <= i <= j < s.len() ==> key_le(#[trigger] s[i].1, #[trigger] s[j].1, asc)
}

/// The insertion step keeps the sequence sorted, adds exactly the new
/// element, and invents nothing.
pub proof fn lemma_insert_sorted_props(
    s: Seq<(Seq<char>, SessionV)>,
    x: (Seq<char>, SessionV),
    asc: bool,
)
    requires
        sorted_by_time(s, asc),
    ensures
        sorted_by_time(insert_sorted(s, x, asc), asc),
        insert_sorted(s, x, asc).to_multiset() == s.to_multiset().insert(x),
        insert_sorted(s, x, asc).len() == s.len() + 1,
        forall|i: int|
            0 <= i < insert_sorted(s, x, asc).len() ==> (#[trigger] insert_sorted(s, x, asc)[i]
                == x || exists|j: int| 0 <= j < s.len() && insert_sorted(s, x, asc)[i] == #[trigger] s[j]),
    decreases s.len(),
{
    broadcast use vstd::seq_lib::group_to_multiset_ensures;

    let t = insert_sorted(s, x, asc);
    if s.len() == 0 {
        assert(t =~= Seq::empty().push(x));
        assert(t.to_multiset() =~= s.to_multiset().insert(x));
    } else if key_le(s.last().1, x.1, asc) {
        assert(t == s.push(x));
        assert forall|i: int, j: int| 0 <= i <= j < t.len() implies key_le(
            #[trigger] t[i].1,
            #[trigger] t[j].1,
            asc,
        ) by {
            if j < t.len() - 1 {
                assert(t[i] == s[i] && t[j] == s[j]);
            } else {
                assert(t[j] == x);
                if i < t.len() - 1 {
                    assert(key_le(s[i].1, s.last().1, asc));
                }
            }
        }
        assert forall|i: int| 0 <= i < t.len() implies (#[trigger] t[i] == x || exists|j: int|
            0 <= j < s.len() && t[i] == #[trigger] s[j]) by {
            if i < t.len() - 1 {
                assert(t[i] == s[i]);
            }
        }
    } else {
        let dl = s.drop_last();
        assert(sorted_by_time(dl, asc)) by {
            assert(forall|i: int| 0 <= i < dl.len() ==> dl[i] == s[i]);
        }
        lemma_insert_sorted_props(dl, x, asc);
        let u = insert_sorted(dl, x, asc);
        assert(t == u.push(s.last()));
        assert(key_le(x.1, s.last().1, asc));
        assert forall|i: int| 0 <= i < u.len() implies key_le(
            #[trigger] u[i].1,
            s.last().1,
            asc,
        ) by {
            if u[i] == x {
            } else {
                let j = choose|j: int| 0 <= j < dl.len() && u[i] == dl[j];
                assert(dl[j] == s[j]);
                assert(key_le(s[j].1, s.last().1, asc));
            }
        }
        assert forall|i: int, j: int| 0 <= i <= j < t.len() implies key_le(
            #[trigger] t[i].1,
            #[trigger] t[j].1,
            asc,
        ) by {
            if j < t.len() - 1 {
                assert(t[i] == u[i] && t[j] == u[j]);
            } else {
                assert(t[j] == s.last());
                if i < t.len() - 1 {
                    assert(t[i] == u[i]);
                }
            }
        }
        assert(s =~= dl.push(s.last()));
        assert(s.to_multiset() =~= dl.to_multiset().insert(s.last()));
        assert(t.to_multiset() =~= u.to_multiset().insert(s.last()));
        assert(t.to_multiset() =~= s.to_multiset().insert(x));
        assert forall|i: int| 0 <= i < t.len() implies (#[trigger] t[i] == x || exists|j: int|
            0 <= j < s.len() && t[i] == #[trigger] s[j]) by {
            if i < t.len() - 1 {
                assert(t[i] == u[i]);
                if u[i] != x {
                    let j = choose|j: int| 0 <= j < dl.len() && u[i] == dl[j];
                    assert(t[i] == s[j]);
                }
            } else {
                assert(t[i] == s[s.len() - 1]);
            }
        }
    }
}

/// The sort law: the pipeline's ordering really is a stable sort — the
/// result is sorted under the chosen direction and holds exactly the same
/// rooms.  `asc` flips the direction; the pipeline picks it from the
/// `sort` criterion, descending unless it reads `asc`.
pub proof fn lemma_sort_spec_sorted(s: Seq<(Seq<char>, SessionV)>, asc: bool)
    ensures
        sorted_by_time(sort_spec(s, asc), asc),
        sort_spec(s, asc).to_multiset() == s.to_multiset(),
        sort_spec(s, asc).len() == s.len(),
    decreases s.len(),
{
    broadcast use vstd::seq_lib::group_to_multiset_ensures;

    if s.len() > 0 {
        lemma_sort_spec_sorted(s.drop_last(), asc);
        lemma_insert_sorted_props(sort_spec(s.drop_last(), asc), s.last(), asc);
        assert(s =~= s.drop_last().push(s.last()));
        assert(s.to_multiset() =~= s.drop_last().to_multiset().insert(s.last()));
    }
}

/// What the caller may constrain: each provided criterion must hold.
/// `os`, `version` and `server` match case-insensitively and exactly,
/// `name` case-insensitively as a substring, `control` exactly.
pub open spec fn matches_query(
    s: SessionV,
    os: Option<Seq<char>>,
    version: Option<Seq<char>>,
    server: Option<Seq<char>>,
    name: Option<Seq<char>>,
    control: Option<bool>,
) -> bool {
    &&& (os matches Some(q) ==> lower_of(s.os) == lower_of(q))
    &&& (version matches Some(q) ==> lower_of(s.version) == lower_of(q))
    &&& (server matches Some(q) ==> lower_of(s.server) == lower_of(q))
    &&& (name matches Some(q) ==> seq_contains_sub(lower_of(s.name), lower_of(q)))
    &&& (control matches Some(q) ==> s.control == q)
}

/// The sessions that satisfy every provided criterion, in order.
pub open spec fn filter_q(
    s: Seq<(Seq<char>, SessionV)>,
    os: Option<Seq<char>>,
    version: Option<Seq<char>>,
    server: Option<Seq<char>>,
    name: Option<Seq<char>>,
    control: Option<bool>,
) -> Seq<(Seq<char>, SessionV)>
    decreases s.len(),
{
    if s.len() == 0 {
        Seq::empty()
    } else if matches_query(s.last().1, os, version, server, name, control) {
        filter_q(s.drop_last(), os, version, server, name, control).push(s.last())
    } else {
        filter_q(s.drop_last(), os, version, server, name, control)
    }
}

/// The room record shown for one surviving session.
pub open spec fn info_of(s: SessionV) -> RoomInfoV {
    RoomInfoV {
        server: s.server,
        viewer_count: s.viewers.len() as usize,
        viewers: s.viewers,
        os: s.os,
        version: s.version,
        name: s.name,
        control: s.control,
    }
}

/// The whole query pipeline: stable sort, filter, count, paginate, then
/// map to room records.  `page` counts from 1 (0 reads as 1) with default
/// 1; `per_page` defaults to 6.  A page past the end is empty, and the
/// count is always the filtered total before pagination.
pub open spec fn rooms_query(
    sessions: Seq<(Seq<char>, SessionV)>,
    os: Option<Seq<char>>,
    version: Option<Seq<char>>,
    server: Option<Seq<char>>,
    name: Option<Seq<char>>,
    sort: Option<Seq<char>>,
    control: Option<bool>,
    page: Option<usize>,
    per_page: Option<usize>,
) -> (Seq<(Seq<char>, RoomInfoV)>, nat) {
    let asc = sort == Some("asc"@);
    let sorted = sort_spec(sessions, asc);
    let filtered = filter_q(sorted, os, version, server, name, control);
    let page1 = match page {
        Some(p) => p as nat,
        None => 1,
    };
    let per = match per_page {
        Some(p) => p as nat,
        None => 6,
    };
    let start0 = if page1 >= 1 {
        (page1 - 1) * per
    } else {
        0
    };
    let lo = if start0 <= filtered.len() {
        start0 as int
    } else {
        filtered.len() as int
    };
    let hi = if start0 + per <= filtered.len() {
        (start0 + per) as int
    } else {
        filtered.len() as int
    };
    let slice = filtered.subrange(lo, hi);
    (slice.map_values(|p: (Seq<char>, SessionV)| (p.0, info_of(p.1))), filtered.len())
}

/// Does a session satisfy every provided criterion?
fn session_matches(
    s: &Session,
    os: Option<&str>,
    version: Option<&str>,
    server: Option<&str>,
    name: Option<&str>,
    control: Option<bool>,
) -> (r: bool)
    ensures
        r == matches_query(
            s@,
            os.deep_view(),
            version.deep_view(),
            server.deep_view(),
            name.deep_view(),
            control,
        ),
{
    if let Some(q) = os {
        let a = to_lowercase(s.os.as_str());
        let b = to_lowercase(q);
        if !str_eq(a.as_str(), b.as_str()) {
            return false;
        }
    }
    if let Some(q) = version {
        let a = to_lowercase(s.version.as_str());
        let b = to_lowercase(q);
        if !str_eq(a.as_str(), b.as_str()) {
            return false;
        }
    }
    if let Some(q) = server {
        let a = to_lowercase(s.server.as_str());
        let b = to_lowercase(q);
        if !str_eq(a.as_str(), b.as_str()) {
            return false;
        }
    }
    if let Some(q) = name {
        let a = to_lowercase(s.name.as_str());
        let b = to_lowercase(q);
        if !str_contains(a.as_str(), b.as_str()) {
            return false;
        }
    }
    if let Some(q) = control {
        if s.control != q {
            return false;
        }
    }
    true
}

/// Copy a list of peer ids.
fn clone_strings(v: &Vec<String>) -> (r: Vec<String>)
    ensures
        r.deep_view() == v.deep_view(),
{
    let mut r: Vec<String> = Vec::new();
    let mut i: usize = 0;
    while i < v.len()
        invariant
            i <= v@.len(),
            r@.len() == i,
            forall|j: int| 0 <= j < i ==> r@[j]@ == v@[j]@,
        decreases v@.len() - i,
    {
        r.push(v[i].clone());
        i = i + 1;
    }
    proof {
        assert(r.deep_view() =~= v.deep_view());
    }
    r
}

/// Copy one session list entry.
fn clone_entry(e: &(String, Session)) -> (r: (String, Session))
    ensures
        r.0@ == e.0@,
        r.1@ == e.1@,
{
    let s = &e.1;
    (
        e.0.clone(),
        Session {
            server: s.server.clone(),
            viewers: clone_strings(&s.viewers),
            start_time: s.start_time,
            server_socket_addr: s.server_socket_addr,
            name: s.name.clone(),
            os: s.os.clone(),
            version: s.version.clone(),
            control: s.control,
        },
    )
}

impl State {
    /// Answer a `get_room_list` request.  Returns the page of room records
    /// and the filtered total before pagination; see [`rooms_query`] for
    /// the exact pipeline.
    pub fn get_available_rooms(
        &self,
        os: Option<&str>,
        version: Option<&str>,
        server: Option<&str>,
        name: Option<&str>,
        sort: Option<&str>,
        control: Option<bool>,
        page: Option<usize>,
        per_page: Option<usize>,
    ) -> (r: (Vec<(String, RoomInfo)>, usize))
        ensures
            (r.0.deep_view(), r.1 as nat) == rooms_query(
                self.skv(),
                os.deep_view(),
                version.deep_view(),
                server.deep_view(),
                name.deep_view(),
                sort.deep_view(),
                control,
                page,
                per_page,
            ),
    {
        let asc = match sort {
            Some(s) => str_eq(s, "asc"),
            None => false,
        };
        proof {
            assert(asc == (sort.deep_view() == Some("asc"@)));
        }
        // stable insertion sort by start time
        let mut sorted: Vec<(String, Session)> = Vec::new();
        let mut i: usize = 0;
        proof {
            assert(self.skv().take(0) =~= Seq::<(Seq<char>, SessionV)>::empty());
            assert(sorted.deep_view() =~= Seq::<(Seq<char>, SessionV)>::empty());
        }
        while i < self.sessions.len()
            invariant
                i <= self.sessions@.len(),
                sorted.deep_view() == sort_spec(self.skv().take(i as int), asc),
            decreases self.sessions@.len() - i,
        {
            let x = clone_entry(&self.sessions[i]);
            let ghost xv = (x.0@, x.1@);
            let ghost pre_sorted = sorted.deep_view();
            let mut p: usize = sorted.len();
            while p > 0 && !time_le(&sorted[p - 1].1, &x.1, asc)
                invariant
                    p <= sorted@.len(),
                    sorted.deep_view() == pre_sorted,
                    xv == (x.0@, x.1@),
                    forall|j: int|
                        p <= j < pre_sorted.len() ==> !key_le(#[trigger] pre_sorted[j].1, xv.1, asc),
                decreases p,
            {
                proof {
                    assert(!key_le(pre_sorted[p - 1].1, xv.1, asc)) by {
                        assert(pre_sorted[p - 1] == sorted.deep_view()[p - 1]);
                        assert(pre_sorted[p - 1].1 == sorted@[p - 1].1@);
                        assert(xv.1 == x.1@);
                    }
                }
                p = p - 1;
            }
            sorted.insert(p, x);
            proof {
                if p > 0 {
                    assert(key_le(pre_sorted[p - 1].1, xv.1, asc));
                }
                lemma_insert_sorted_at(pre_sorted, xv, asc, p as int);
                assert(sorted.deep_view() =~= pre_sorted.take(p as int).push(xv).add(
                    pre_sorted.skip(p as int),
                ));
                assert(self.skv().take(i + 1).drop_last() =~= self.skv().take(i as int));
                assert(self.skv().take(i + 1).last() == self.skv()[i as int]);
                assert(xv == self.skv()[i as int]);
            }
            i = i + 1;
        }
        proof {
            assert(self.skv().take(self.sessions@.len() as int) =~= self.skv());
        }
        let ghost sorted_v = sorted.deep_view();
        // filter
        let ghost q_os = os.deep_view();
        let ghost q_version = version.deep_view();
        let ghost q_server = server.deep_view();
        let ghost q_name = name.deep_view();
        let mut filtered: Vec<(String, Session)> = Vec::new();
        let mut k: usize = 0;
        proof {
            assert(sorted_v.take(0) =~= Seq::<(Seq<char>, SessionV)>::empty());
            assert(filtered.deep_view() =~= filter_q(
                sorted_v.take(0),
                q_os,
                q_version,
                q_server,
                q_name,
                control,
            ));
        }
        while k < sorted.len()
            invariant
                k <= sorted@.len(),
                sorted.deep_view() == sorted_v,
                q_os == os.deep_view(),
                q_version == version.deep_view(),
                q_server == server.deep_view(),
                q_name == name.deep_view(),
                filtered.deep_view() == filter_q(
                    sorted_v.take(k as int),
                    q_os,
                    q_version,
                    q_server,
                    q_name,
                    control,
                ),
            decreases sorted@.len() - k,
        {
            proof {
                assert(sorted_v.take(k + 1).drop_last() =~= sorted_v.take(k as int));
                assert(sorted_v.take(k + 1).last() == sorted_v[k as int]);
                assert(sorted_v[k as int].1 == sorted@[k as int].1@);
            }
            if session_matches(&sorted[k].1, os, version, server, name, control) {
                let e = clone_entry(&sorted[k]);
                let ghost pre_f = filtered.deep_view();
                filtered.push(e);
                proof {
                    assert(filtered.deep_view() =~= pre_f.push(sorted_v[k as int]));
                    assert(filtered.deep_view() =~= filter_q(
                        sorted_v.take(k + 1),
                        q_os,
                        q_version,
                        q_server,
                        q_name,
                        control,
                    ));
                }
            } else {
                proof {
                    assert(filtered.deep_view() =~= filter_q(
                        sorted_v.take(k + 1),
                        q_os,
                        q_version,
                        q_server,
                        q_name,
                        control,
                    ));
                }
            }
            k = k + 1;
        }
        proof {
            assert(sorted_v.take(sorted_v.len() as int) =~= sorted_v);
        }
        let ghost filtered_v = filtered.deep_view();
        let total_count = filtered.len();
        // paginate
        let page1: usize = match page {
            Some(p) => p,
            None => 1,
        };
        let per: usize = match per_page {
            Some(p) => p,
            None => 6,
        };
        let start0: usize = if page1 >= 1 {
            match (page1 - 1).checked_mul(per) {
                Some(s) => s,
                None => total_count,  // far past the end either way
            }
        } else {
            0
        };
        let ghost start_n: nat = if page1 >= 1 {
            ((page1 - 1) * per) as nat
        } else {
            0
        };
        let lo: usize = if start0 <= total_count {
            start0
        } else {
            total_count
        };
        let hi: usize = if per <= total_count && lo <= total_count - per {
            lo + per
        } else {
            total_count
        };
        proof {
            assert(lo as int == (if start_n <= filtered_v.len() {
                start_n as int
            } else {
                filtered_v.len() as int
            }));
            assert(hi as int == (if start_n + per <= filtered_v.len() {
                (start_n + per) as int
            } else {
                filtered_v.len() as int
            }));
        }
        // map the page to room records
        let mut rooms: Vec<(String, RoomInfo)> = Vec::new();
        let mut k2: usize = lo;
        while k2 < hi
            invariant
                lo <= k2 <= hi,
                hi <= filtered@.len(),
                filtered.deep_view() == filtered_v,
                rooms@.len() == k2 - lo,
                forall|j: int|
                    0 <= j < k2 - lo ==> #[trigger] rooms.deep_view()[j] == (
                        filtered_v[lo + j].0,
                        info_of(filtered_v[lo + j].1),
                    ),
            decreases hi - k2,
        {
            let key = filtered[k2].0.clone();
            let s = &filtered[k2].1;
            let info = RoomInfo {
                server: s.server.clone(),
                viewer_count: s.viewers.len(),
                viewers: clone_strings(&s.viewers),
                os: s.os.clone(),
                version: s.version.clone(),
                name: s.name.clone(),
                control: s.control,
            };
            proof {
                assert(filtered_v[k2 as int].1 == filtered@[k2 as int].1@);
                assert(info@ == info_of(filtered_v[k2 as int].1));
                assert(key@ == filtered_v[k2 as int].0);
            }
            let ghost prev_rooms = rooms.deep_view();
            rooms.push((key, info));
            proof {
                assert(rooms.deep_view() =~= prev_rooms.push((key@, info@)));
                assert forall|j: int| 0 <= j < k2 + 1 - lo implies #[trigger] rooms.deep_view()[j]
                    == (filtered_v[lo + j].0, info_of(filtered_v[lo + j].1)) by {
                    if j < k2 - lo {
                        assert(rooms.deep_view()[j] == prev_rooms[j]);
                    } else {
                        assert(rooms.deep_view()[j] == (key@, info@));
                    }
                }
            }
            k2 = k2 + 1;
        }
        proof {
            let expected = rooms_query(
                self.skv(),
                os.deep_view(),
                version.deep_view(),
                server.deep_view(),
                name.deep_view(),
                sort.deep_view(),
                control,
                page,
                per_page,
            );
            assert(rooms.deep_view() =~= expected.0);
        }
        (rooms, total_count)
    }
}

/// Start-time comparison, matching [`key_le`].
fn time_le(a: &Session, b: &Session, asc: bool) -> (r: bool)
    ensures
        r == key_le(a@, b@, asc),
{
    if asc {
        a.start_time <= b.start_time
    } else {
        a.start_time >= b.start_time
    }
}

} // verus!
