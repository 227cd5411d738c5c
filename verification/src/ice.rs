//! The ICE server resolver: a pure function from the requesting peer's id
//! and a configuration snapshot to the list of STUN and TURN endpoints the
//! hub hands out.  The caller reads the configuration from wherever it
//! lives; the logic here is verified for every snapshot.

use vstd::prelude::*;

use crate::rtc::{IceServer, IceServerV};
use crate::state::State;
use crate::text::{split_spec, split_str, str_eq, trim_spec, trim_str};

verus! {

/// A snapshot of the resolver's configuration keys; `None` is an unset
/// key.
pub struct IceEnv {
    pub ice_server_whitelist: Option<String>,
    pub stun_servers: Option<String>,
    pub turn_server_configs: Option<String>,
    pub turn_servers: Option<String>,
    pub turn_username: Option<String>,
    pub turn_credential: Option<String>,
}

#[verifier::ext_equal]
pub ghost struct IceEnvV {
    pub ice_server_whitelist: Option<Seq<char>>,
    pub stun_servers: Option<Seq<char>>,
    pub turn_server_configs: Option<Seq<char>>,
    pub turn_servers: Option<Seq<char>>,
    pub turn_username: Option<Seq<char>>,
    pub turn_credential: Option<Seq<char>>,
}

impl View for IceEnv {
    type V = IceEnvV;

    open spec fn view(&self) -> IceEnvV {
        IceEnvV {
            ice_server_whitelist: self.ice_server_whitelist.deep_view(),
            stun_servers: self.stun_servers.deep_view(),
            turn_server_configs: self.turn_server_configs.deep_view(),
            turn_servers: self.turn_servers.deep_view(),
            turn_username: self.turn_username.deep_view(),
            turn_credential: self.turn_credential.deep_view(),
        }
    }
}

/// The comma-separated entries of `s`, each trimmed.
pub open spec fn wl_ids(s: Seq<char>) -> Seq<Seq<char>> {
    split_spec(s, ',').map_values(|p: Seq<char>| trim_spec(p))
}

/// May `id` be told about ICE servers?  Yes unless a non-empty whitelist
/// is set that does not name it.
pub open spec fn allowed(id: Seq<char>, wl: Option<Seq<char>>) -> bool {
    match wl {
        None => true,
        Some(w) => w.len() == 0 || wl_ids(w).contains(id),
    }
}

/// STUN entries: one per comma-separated URL, with empty credentials.
pub open spec fn stun_list(ps: Seq<Seq<char>>) -> Seq<IceServerV>
    decreases ps.len(),
{
    if ps.len() == 0 {
        Seq::empty()
    } else {
        stun_list(ps.drop_last()).push(
            IceServerV {
                url: trim_spec(ps.last()),
                username: Seq::empty(),
                password: Seq::empty(),
            },
        )
    }
}

/// TURN entries with individual credentials: each `url|username|credential`
/// triple becomes one entry; pieces with fewer than three fields are
/// skipped.
pub open spec fn turn_cfg_list(ps: Seq<Seq<char>>) -> Seq<IceServerV>
    decreases ps.len(),
{
    if ps.len() == 0 {
        Seq::empty()
    } else {
        let parts = split_spec(ps.last(), '|');
        let rest = turn_cfg_list(ps.drop_last());
        if parts.len() >= 3 {
            rest.push(
                IceServerV {
                    url: trim_spec(parts[0]),
                    username: trim_spec(parts[1]),
                    password: trim_spec(parts[2]),
                },
            )
        } else {
            rest
        }
    }
}

/// TURN entries sharing one username and credential.
pub open spec fn legacy_list(ps: Seq<Seq<char>>, user: Seq<char>, cred: Seq<char>) -> Seq<
    IceServerV,
>
    decreases ps.len(),
{
    if ps.len() == 0 {
        Seq::empty()
    } else {
        legacy_list(ps.drop_last(), user, cred).push(
            IceServerV {
                url: trim_spec(ps.last()),
                username: trim_spec(user),
                password: trim_spec(cred),
            },
        )
    }
}

/// Everything the resolver returns, in order: STUN servers, individually
/// credentialed TURN servers, then shared-credential TURN servers (only
/// when all three of their keys are set) — or nothing at all when a
/// non-empty whitelist excludes the requester.
pub open spec fn ice_servers_spec(id: Seq<char>, env: IceEnvV) -> Seq<IceServerV> {
    if !allowed(id, env.ice_server_whitelist) {
        Seq::empty()
    } else {
        let stun = match env.stun_servers {
            None => Seq::empty(),
            Some(s) => stun_list(split_spec(s, ',')),
        };
        let cfg = match env.turn_server_configs {
            None => Seq::empty(),
            Some(s) => turn_cfg_list(split_spec(s, ',')),
        };
        let legacy = match (env.turn_servers, env.turn_username, env.turn_credential) {
            (Some(u), Some(user), Some(cred)) => legacy_list(split_spec(u, ','), user, cred),
            _ => Seq::empty(),
        };
        stun.add(cfg).add(legacy)
    }
}

/// Is `id` among the trimmed, comma-separated entries of `w`?
fn whitelist_contains(w: &str, id: &str) -> (r: bool)
    ensures
        r == wl_ids(w@).contains(id@),
{
    let pieces = split_str(w, ',');
    let mut k: usize = 0;
    while k < pieces.len()
        invariant
            k <= pieces@.len(),
            pieces.deep_view() == split_spec(w@, ','),
            forall|j: int| 0 <= j < k ==> #[trigger] wl_ids(w@)[j] != id@,
        decreases pieces@.len() - k,
    {
        let t = trim_str(pieces[k].as_str());
        proof {
            assert(pieces.deep_view()[k as int] == pieces@[k as int]@);
            assert(wl_ids(w@)[k as int] == trim_spec(pieces.deep_view()[k as int]));
        }
        if str_eq(t.as_str(), id) {
            proof {
                assert(wl_ids(w@)[k as int] == id@);
            }
            return true;
        }
        k = k + 1;
    }
    proof {
        if wl_ids(w@).contains(id@) {
            let j = choose|j: int| 0 <= j < wl_ids(w@).len() && wl_ids(w@)[j] == id@;
            assert(wl_ids(w@)[j] != id@);
        }
    }
    false
}

/// Append one STUN-style entry per comma-separated URL.
fn collect_stun(out: &mut Vec<IceServer>, s: &str)
    ensures
        final(out).deep_view() == old(out).deep_view() + stun_list(split_spec(s@, ',')),
{
    let pieces = split_str(s, ',');
    let ghost pv = pieces.deep_view();
    let mut k: usize = 0;
    proof {
        assert(pv.take(0) =~= Seq::<Seq<char>>::empty());
        assert(old(out).deep_view() + stun_list(pv.take(0)) =~= old(out).deep_view());
    }
    while k < pieces.len()
        invariant
            k <= pieces@.len(),
            pieces.deep_view() == pv,
            pv == split_spec(s@, ','),
            out.deep_view() == old(out).deep_view() + stun_list(pv.take(k as int)),
        decreases pieces@.len() - k,
    {
        let url = trim_str(pieces[k].as_str());
        let entry = IceServer { url, username: String::new(), password: String::new() };
        let ghost pre = out.deep_view();
        out.push(entry);
        proof {
            assert(pv.take(k + 1).drop_last() =~= pv.take(k as int));
            assert(pv.take(k + 1).last() == pv[k as int]);
            assert(pv[k as int] == pieces@[k as int]@);
            assert(out.deep_view() =~= pre.push(
                IceServerV {
                    url: trim_spec(pv[k as int]),
                    username: Seq::empty(),
                    password: Seq::empty(),
                },
            ));
            assert(out.deep_view() =~= old(out).deep_view() + stun_list(pv.take(k + 1)));
        }
        k = k + 1;
    }
    proof {
        assert(pv.take(pv.len() as int) =~= pv);
    }
}

/// Append one entry per complete `url|username|credential` triple.
fn collect_turn_cfg(out: &mut Vec<IceServer>, s: &str)
    ensures
        final(out).deep_view() == old(out).deep_view() + turn_cfg_list(split_spec(s@, ',')),
{
    let pieces = split_str(s, ',');
    let ghost pv = pieces.deep_view();
    let mut k: usize = 0;
    proof {
        assert(pv.take(0) =~= Seq::<Seq<char>>::empty());
        assert(old(out).deep_view() + turn_cfg_list(pv.take(0)) =~= old(out).deep_view());
    }
    while k < pieces.len()
        invariant
            k <= pieces@.len(),
            pieces.deep_view() == pv,
            pv == split_spec(s@, ','),
            out.deep_view() == old(out).deep_view() + turn_cfg_list(pv.take(k as int)),
        decreases pieces@.len() - k,
    {
        let parts = split_str(pieces[k].as_str(), '|');
        proof {
            assert(pv.take(k + 1).drop_last() =~= pv.take(k as int));
            assert(pv.take(k + 1).last() == pv[k as int]);
            assert(pv[k as int] == pieces@[k as int]@);
            assert(parts.deep_view() == split_spec(pv[k as int], '|'));
        }
        if parts.len() >= 3 {
            let url = trim_str(parts[0].as_str());
            let username = trim_str(parts[1].as_str());
            let password = trim_str(parts[2].as_str());
            let ghost pre = out.deep_view();
            out.push(IceServer { url, username, password });
            proof {
                assert(parts.deep_view()[0] == parts@[0]@);
                assert(parts.deep_view()[1] == parts@[1]@);
                assert(parts.deep_view()[2] == parts@[2]@);
                assert(out.deep_view() =~= pre.push(
                    IceServerV {
                        url: trim_spec(split_spec(pv[k as int], '|')[0]),
                        username: trim_spec(split_spec(pv[k as int], '|')[1]),
                        password: trim_spec(split_spec(pv[k as int], '|')[2]),
                    },
                ));
                assert(out.deep_view() =~= old(out).deep_view() + turn_cfg_list(pv.take(k + 1)));
            }
        } else {
            proof {
                assert(out.deep_view() =~= old(out).deep_view() + turn_cfg_list(pv.take(k + 1)));
            }
        }
        k = k + 1;
    }
    proof {
        assert(pv.take(pv.len() as int) =~= pv);
    }
}

/// Append one shared-credential TURN entry per URL.
fn collect_legacy(out: &mut Vec<IceServer>, s: &str, user: &str, cred: &str)
    ensures
        final(out).deep_view() == old(out).deep_view() + legacy_list(
            split_spec(s@, ','),
            user@,
            cred@,
        ),
{
    let pieces = split_str(s, ',');
    let ghost pv = pieces.deep_view();
    let mut k: usize = 0;
    proof {
        assert(pv.take(0) =~= Seq::<Seq<char>>::empty());
        assert(old(out).deep_view() + legacy_list(pv.take(0), user@, cred@) =~= old(
            out,
        ).deep_view());
    }
    while k < pieces.len()
        invariant
            k <= pieces@.len(),
            pieces.deep_view() == pv,
            pv == split_spec(s@, ','),
            out.deep_view() == old(out).deep_view() + legacy_list(pv.take(k as int), user@, cred@),
        decreases pieces@.len() - k,
    {
        let url = trim_str(pieces[k].as_str());
        let username = trim_str(user);
        let password = trim_str(cred);
        let ghost pre = out.deep_view();
        out.push(IceServer { url, username, password });
        proof {
            assert(pv.take(k + 1).drop_last() =~= pv.take(k as int));
            assert(pv.take(k + 1).last() == pv[k as int]);
            assert(pv[k as int] == pieces@[k as int]@);
            assert(out.deep_view() =~= pre.push(
                IceServerV {
                    url: trim_spec(pv[k as int]),
                    username: trim_spec(user@),
                    password: trim_spec(cred@),
                },
            ));
            assert(out.deep_view() =~= old(out).deep_view() + legacy_list(
                pv.take(k + 1),
                user@,
                cred@,
            ));
        }
        k = k + 1;
    }
    proof {
        assert(pv.take(pv.len() as int) =~= pv);
    }
}

impl State {
    /// Resolve the ICE servers offered to `id` under the configuration
    /// snapshot `env`; exactly [`ice_servers_spec`].
    pub fn get_ice_servers(&self, id: String, env: &IceEnv) -> (r: Vec<IceServer>)
        ensures
            r.deep_view() == ice_servers_spec(id@, env@),
    {
        if let Some(w) = &env.ice_server_whitelist {
            if w.as_str().unicode_len() > 0 && !whitelist_contains(w.as_str(), id.as_str()) {
                let empty: Vec<IceServer> = Vec::new();
                proof {
                    assert(empty.deep_view() =~= Seq::<IceServerV>::empty());
                }
                return empty;
            }
        }
        let mut out: Vec<IceServer> = Vec::new();
        proof {
            assert(out.deep_view() =~= Seq::<IceServerV>::empty());
        }
        if let Some(s) = &env.stun_servers {
            let ghost pre = out.deep_view();
            collect_stun(&mut out, s.as_str());
            proof {
                assert(pre =~= Seq::<IceServerV>::empty());
                assert(out.deep_view() =~= stun_list(split_spec(s@, ',')));
            }
        }
        if let Some(s) = &env.turn_server_configs {
            collect_turn_cfg(&mut out, s.as_str());
        }
        let all_legacy = env.turn_servers.is_some() && env.turn_username.is_some()
            && env.turn_credential.is_some();
        if all_legacy {
            let s = match &env.turn_servers {
                Some(s) => s,
                None => {
                    proof {
                        assert(false);
                    }
                    return out;
                },
            };
            let user = match &env.turn_username {
                Some(u) => u,
                None => {
                    proof {
                        assert(false);
                    }
                    return out;
                },
            };
            let cred = match &env.turn_credential {
                Some(c) => c,
                None => {
                    proof {
                        assert(false);
                    }
                    return out;
                },
            };
            collect_legacy(&mut out, s.as_str(), user.as_str(), cred.as_str());
        }
        proof {
            assert(out.deep_view() =~= ice_servers_spec(id@, env@));
        }
        out
    }
}

} // verus!
