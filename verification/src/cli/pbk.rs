//! `webman push pbk`: where the public key is uploaded.
use vstd::prelude::*;

verus! {

/// The node, SSH address or server to upload the public key to.
pub struct Args {
    pub context: Option<String>,
    pub ip: Option<String>,
    pub root_ip: Option<String>,
}

/// The home directory of `username` on a server: `/root` for root.
pub open spec fn remote_home_spec(username: Seq<char>) -> Seq<char> {
    if username == "root"@ {
        "/root"@
    } else {
        "/home/"@ + username
    }
}

/// The home directory of `username` on a server.
pub fn remote_home_path(username: &str) -> (r: String)
    ensures
        r@ == remote_home_spec(username@),
{
    if crate::text::str_eq(username, "root") {
        "/root".to_owned()
    } else {
        let mut r = "/home/".to_owned();
        r.append(username);
        r
    }
}

/// Where the key is put before it is added to `authorized_keys`.
pub fn chunk_path(home: &str) -> (r: String)
    ensures
        r@ == home@ + "/authorized_keys.chunk"@,
{
    let mut r = home.to_owned();
    r.append("/authorized_keys.chunk");
    r
}

/// The public key that goes with a private key.
pub fn public_key_path(private_key_path: &str) -> (r: String)
    ensures
        r@ == private_key_path@ + ".pub"@,
{
    let mut r = private_key_path.to_owned();
    r.append(".pub");
    r
}

/// The context is an SSH address `user@host`.
pub open spec fn is_address(context: Seq<char>) -> bool {
    crate::text::has_char(context, '@')
}

/// The user and host of an SSH address: what comes before the first `@`,
/// and what comes after it up to the next `@`.
pub open spec fn split_address(context: Seq<char>, at: int) -> (Seq<char>, Seq<char>) {
    (context.take(at), context.skip(at + 1).take(first_at(context.skip(at + 1))))
}

/// The position of the first `@` of `s`, or its length where it has none.
pub open spec fn first_at(s: Seq<char>) -> int
    decreases s.len(),
{
    if s.len() == 0 {
        0
    } else if s[0] == '@' {
        0
    } else {
        1 + first_at(s.drop_first())
    }
}

proof fn lemma_first_at(s: Seq<char>)
    ensures
        0 <= first_at(s) <= s.len(),
        forall|i: int| 0 <= i < first_at(s) ==> s[i] != '@',
        first_at(s) < s.len() ==> s[first_at(s)] == '@',
    decreases s.len(),
{
    if s.len() > 0 && s[0] != '@' {
        lemma_first_at(s.drop_first());
        assert forall|i: int| 0 <= i < first_at(s) implies s[i] != '@' by {
            if i > 0 {
                assert(s[i] == s.drop_first()[i - 1]);
            }
        }
    }
}

/// The position of the first `@` of `s`, or its length where it has none.
fn find_at(s: &Vec<char>) -> (r: usize)
    ensures
        r == first_at(s@),
{
    proof {
        lemma_first_at(s@);
        assert(s@.skip(0) =~= s@);
    }
    let mut i: usize = 0;
    while i < s.len() && s[i] != '@'
        invariant
            i <= s.len(),
            first_at(s@) == i + first_at(s@.skip(i as int)),
        decreases s.len() - i,
    {
        proof {
            assert(s@.skip(i as int).drop_first() =~= s@.skip(i + 1));
        }
        i = i + 1;
    }
    proof {
        if i < s.len() {
            assert(s@.skip(i as int)[0] == '@');
        }
    }
    i
}

/// The user and host of an SSH address `user@host`, as the command
/// splits it at `@`; `None` where the text holds no `@`.
pub fn ssh_address(context: &str) -> (r: Option<(String, String)>)
    ensures
        r is Some <==> is_address(context@),
        r matches Some((u, h)) ==> (u@, h@) == split_address(context@, first_at(context@)),
{
    let cs = crate::text::chars_of(context);
    let at = find_at(&cs);
    proof {
        lemma_first_at(cs@);
    }
    if at == cs.len() {
        proof {
            assert(!is_address(context@));
        }
        return None;
    }
    let mut user: Vec<char> = Vec::new();
    let mut k: usize = 0;
    while k < at
        invariant
            k <= at < cs.len(),
            user@ == cs@.take(k as int),
        decreases at - k,
    {
        user.push(cs[k]);
        proof {
            assert(cs@.take(k + 1) =~= cs@.take(k as int).push(cs@[k as int]));
        }
        k = k + 1;
    }
    let rest = crate::text::skip_chars(&cs, at + 1);
    let end = find_at(&rest);
    proof {
        lemma_first_at(rest@);
    }
    let mut host: Vec<char> = Vec::new();
    let mut m: usize = 0;
    while m < end
        invariant
            m <= end <= rest.len(),
            host@ == rest@.take(m as int),
        decreases end - m,
    {
        host.push(rest[m]);
        proof {
            assert(rest@.take(m + 1) =~= rest@.take(m as int).push(rest@[m as int]));
        }
        m = m + 1;
    }
    proof {
        assert(is_address(context@));
    }
    Some((crate::text::string_from(&user), crate::text::string_from(&host)))
}

/// The shell command that moves the uploaded key into `authorized_keys`.
pub fn install_key_command() -> (r: String)
    ensures
        r@ == "mkdir -p .ssh && chmod 700 .ssh && cat authorized_keys.chunk >> .ssh/authorized_keys && chmod 644 .ssh/authorized_keys && rm authorized_keys.chunk"@,
{
    "mkdir -p .ssh && chmod 700 .ssh && cat authorized_keys.chunk >> .ssh/authorized_keys && chmod 644 .ssh/authorized_keys && rm authorized_keys.chunk".to_owned()
}

} // verus!

verus! {

/// Where the key for a node is put: in the node's remote home directory,
/// or else in the home of its SSH user.
pub fn node_chunk_path(node: &crate::config::NodeData) -> (r: String)
    ensures
        r@ == match node.remote_home_dir {
            Some(h) => h@,
            None => "/home/"@ + node.ssh.username@,
        } + "/authorized_keys.chunk"@,
{
    let home = match &node.remote_home_dir {
        Some(h) => h.clone(),
        None => {
            let mut h = "/home/".to_owned();
            h.append(node.ssh.username.as_str());
            h
        },
    };
    chunk_path(home.as_str())
}

} // verus!
