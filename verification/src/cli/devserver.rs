//! `webman devserver`: finding the development server.
use vstd::prelude::*;
use crate::config::ServerData;

verus! {

/// How to reach the development server.
pub struct Args {
    pub json: bool,
    pub ssh: bool,
    pub code: bool,
    pub command: bool,
    pub dir: Option<String>,
}

/// The position of the first server whose host name mentions `devserver`.
pub open spec fn devserver_spec(servers: Seq<ServerData>) -> Option<int> {
    if exists|i: int| 0 <= i < servers.len() && crate::text::contains_seq(servers[i].hostname@, "devserver"@) {
        Some(choose|i: int|
            0 <= i < servers.len() && crate::text::contains_seq(servers[i].hostname@, "devserver"@)
                && forall|j: int| 0 <= j < i ==> !crate::text::contains_seq(servers[j].hostname@, "devserver"@))
    } else {
        None
    }
}

/// The position of the development server among `servers`: the first
/// whose host name mentions `devserver`.
pub fn devserver_index(servers: &Vec<ServerData>) -> (r: Option<usize>)
    ensures
        match r {
            Some(i) => devserver_spec(servers@) == Some(i as int),
            None => devserver_spec(servers@) is None,
        },
{
    let key = crate::text::chars_of("devserver");
    let mut i: usize = 0;
    while i < servers.len()
        invariant
            key@ == "devserver"@,
            i <= servers.len(),
            forall|j: int| 0 <= j < i ==> !crate::text::contains_seq(servers@[j].hostname@, "devserver"@),
        decreases servers.len() - i,
    {
        let h = crate::text::chars_of(servers[i].hostname.as_str());
        if crate::text::has_infix(&h, &key) {
            proof {
                let p = |s: ServerData| crate::text::contains_seq(s.hostname@, "devserver"@);
                assert(p(servers@[i as int]));
                let c = choose|k: int|
                    0 <= k < servers@.len() && crate::text::contains_seq(servers@[k].hostname@, "devserver"@)
                        && forall|j: int| 0 <= j < k ==> !crate::text::contains_seq(servers@[j].hostname@, "devserver"@);
                assert(0 <= c < servers@.len() && crate::text::contains_seq(servers@[c].hostname@, "devserver"@)
                        && forall|j: int| 0 <= j < c ==> !crate::text::contains_seq(servers@[j].hostname@, "devserver"@));
                if c < i {
                    assert(!crate::text::contains_seq(servers@[c].hostname@, "devserver"@));
                } else if c > i {
                    assert(!crate::text::contains_seq(servers@[i as int].hostname@, "devserver"@));
                }
            }
            return Some(i);
        }
        i = i + 1;
    }
    None
}

} // verus!
