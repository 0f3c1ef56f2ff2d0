//! Adding a host to an OpenSSH client configuration, or replacing the
//! block that already configures it.
use vstd::prelude::*;
use crate::text::{
    is_ws, trim, trim_start, starts_with, lines, join_lines, concat, chars_of, string_from,
    trim_chars, has_prefix, same_chars, skip_chars, lines_of, extend,
};

verus! {

/// `Host `, the keyword that opens a block.
pub open spec fn host_keyword() -> Seq<char> {
    seq!['H', 'o', 's', 't', ' ']
}

/// The line opens a block: after its leading whitespace it starts with `Host `.
pub open spec fn opens_block(line: Seq<char>) -> bool {
    starts_with(trim_start(line), host_keyword())
}

/// The host that the first `Host ` line among `ls` names, if there is one:
/// the first line whose trimmed text starts with `Host `, with that keyword
/// and the surrounding whitespace taken off.
pub open spec fn first_host(ls: Seq<Seq<char>>) -> Option<Seq<char>>
    decreases ls.len(),
{
    if ls.len() == 0 {
        None
    } else if starts_with(trim(ls[0]), host_keyword()) {
        Some(trim(trim(ls[0]).skip(5)))
    } else {
        first_host(ls.drop_first())
    }
}

/// The text `block` is the block of `host`: its first `Host ` line names it.
pub open spec fn is_block_of(block: Seq<char>, host: Seq<char>) -> bool {
    first_host(lines(block)) == Some(host)
}

/// The lines grouped into blocks: a new block starts at every line after
/// the first that opens a block.
pub open spec fn blocks(ls: Seq<Seq<char>>) -> Seq<Seq<Seq<char>>>
    decreases ls.len(),
{
    if ls.len() == 0 {
        Seq::empty()
    } else {
        let b = blocks(ls.drop_last());
        if b.len() == 0 || opens_block(ls.last()) {
            b.push(seq![ls.last()])
        } else {
            b.update(b.len() - 1, b.last().push(ls.last()))
        }
    }
}

/// The block that configures `host`.
pub open spec fn host_block_text(
    host: Seq<char>,
    hostname: Seq<char>,
    user: Seq<char>,
    identity_file: Seq<char>,
) -> Seq<char> {
    seq!['H', 'o', 's', 't', ' '] + host + seq!['\n', '\t', 'H', 'o', 's', 't', 'N', 'a', 'm', 'e', ' ']
        + hostname + seq!['\n', '\t', 'U', 's', 'e', 'r', ' '] + user + seq![
        '\n',
        '\t',
        'I',
        'd',
        'e',
        'n',
        't',
        'i',
        't',
        'y',
        'F',
        'i',
        'l',
        'e',
        ' ',
    ] + identity_file + seq![
        '\n',
        '\t',
        'I',
        'd',
        'e',
        'n',
        't',
        'i',
        't',
        'i',
        'e',
        's',
        'O',
        'n',
        'l',
        'y',
        ' ',
        'y',
        'e',
        's',
        '\n',
    ]
}

/// Each block written back: the block of `host` becomes `new_block`
/// followed by an empty line, any other block stays as it was.
pub open spec fn render_blocks(bs: Seq<Seq<Seq<char>>>, host: Seq<char>, new_block: Seq<char>) -> Seq<
    char,
>
    decreases bs.len(),
{
    if bs.len() == 0 {
        Seq::empty()
    } else {
        let t = join_lines(bs.last());
        render_blocks(bs.drop_last(), host, new_block) + if is_block_of(t, host) {
            new_block.push('\n')
        } else {
            t
        }
    }
}

/// Some block of `bs` is the block of `host`.
pub open spec fn has_block_of(bs: Seq<Seq<Seq<char>>>, host: Seq<char>) -> bool {
    exists|i: int| 0 <= i < bs.len() && is_block_of(join_lines(#[trigger] bs[i]), host)
}

/// The configuration `content` with the block of `host` replaced by
/// `new_block`; where there is no such block, `new_block` is added at the
/// end, after an empty line.
pub open spec fn updated_config(content: Seq<char>, host: Seq<char>, new_block: Seq<char>) -> Seq<char> {
    let bs = blocks(lines(content));
    let out = render_blocks(bs, host, new_block);
    if has_block_of(bs, host) {
        out
    } else {
        let out2 = if out.len() > 0 && out.last() == '\n' {
            out
        } else {
            out.push('\n')
        };
        out2.push('\n') + new_block
    }
}

proof fn lemma_first_host_step(ls: Seq<Seq<char>>)
    requires
        ls.len() > 0,
    ensures
        first_host(ls) == if starts_with(trim(ls[0]), host_keyword()) {
            Some(trim(trim(ls[0]).skip(5)))
        } else {
            first_host(ls.drop_first())
        },
{
}

/// Whether the first `Host ` line of `block` names `host`.
pub fn is_host_block(block: &str, host: &str) -> (r: bool)
    ensures
        r == is_block_of(block@, host@),
{
    let cs = chars_of(block);
    let want = chars_of(host);
    let key = chars_of("Host ");
    proof {
        reveal_strlit("Host ");
        assert(key@ =~= host_keyword());
    }
    let ls = lines_of(&cs);
    let ghost lv = ls@.map_values(|l: Vec<char>| l@);
    let mut i: usize = 0;
    proof {
        assert(lv.skip(0) =~= lv);
    }
    while i < ls.len()
        invariant
            key@ == host_keyword(),
            lv == ls@.map_values(|l: Vec<char>| l@),
            lv == lines(block@),
            want@ == host@,
            i <= ls.len(),
            first_host(lv) == first_host(lv.skip(i as int)),
        decreases ls.len() - i,
    {
        proof {
            assert(lv.skip(i as int)[0] == ls@[i as int]@);
            assert(lv.skip(i as int).drop_first() =~= lv.skip(i + 1));
            lemma_first_host_step(lv.skip(i as int));
        }
        let t = trim_chars(&ls[i]);
        if has_prefix(&t, &key) {
            let rest = skip_chars(&t, 5);
            let value = trim_chars(&rest);
            return same_chars(&value, &want);
        }
        i = i + 1;
    }
    proof {
        assert(lv.skip(i as int).len() == 0);
    }
    false
}

/// The configuration text `content` with the block of `host` replaced by
/// a block that gives it `hostname`, `user` and `identity_file`; where no
/// block configures `host`, the new block is added at the end.
pub fn add_or_update_host(
    content: &str,
    host: &str,
    hostname: &str,
    user: &str,
    identity_file: &str,
) -> (r: String)
    ensures
        r@ == updated_config(
            content@,
            host@,
            host_block_text(host@, hostname@, user@, identity_file@),
        ),
{
    let mut nb: Vec<char> = Vec::new();
    extend(&mut nb, &chars_of("Host "));
    extend(&mut nb, &chars_of(host));
    extend(&mut nb, &chars_of("\n\tHostName "));
    extend(&mut nb, &chars_of(hostname));
    extend(&mut nb, &chars_of("\n\tUser "));
    extend(&mut nb, &chars_of(user));
    extend(&mut nb, &chars_of("\n\tIdentityFile "));
    extend(&mut nb, &chars_of(identity_file));
    extend(&mut nb, &chars_of("\n\tIdentitiesOnly yes\n"));
    let key = chars_of("Host ");
    proof {
        reveal_strlit("Host ");
        reveal_strlit("\n\tHostName ");
        reveal_strlit("\n\tUser ");
        reveal_strlit("\n\tIdentityFile ");
        reveal_strlit("\n\tIdentitiesOnly yes\n");
        assert(nb@ =~= host_block_text(host@, hostname@, user@, identity_file@));
        assert(key@ =~= host_keyword());
    }
    let ghost new_block = nb@;
    let cs = chars_of(content);
    let ls = lines_of(&cs);
    let ghost lv = ls@.map_values(|l: Vec<char>| l@);
    let mut output: Vec<char> = Vec::new();
    let mut current: Vec<char> = Vec::new();
    let mut replaced = false;
    let mut i: usize = 0;
    proof {
        assert(lv.take(0) =~= Seq::<Seq<char>>::empty());
    }
    while i < ls.len()
        invariant
            key@ == host_keyword(),
            nb@ == new_block,
            lv == ls@.map_values(|l: Vec<char>| l@),
            lv == lines(content@),
            i <= ls.len(),
            ({
                let bs = blocks(lv.take(i as int));
                &&& bs.len() == 0 ==> current@.len() == 0 && output@.len() == 0 && !replaced
                &&& bs.len() > 0 ==> current@ == join_lines(bs.last()) && current@.len() > 0
                &&& bs.len() > 0 ==> output@ == render_blocks(bs.drop_last(), host@, new_block)
                &&& bs.len() > 0 ==> replaced == has_block_of(bs.drop_last(), host@)
            }),
        decreases ls.len() - i,
    {
        let ghost bs = blocks(lv.take(i as int));
        proof {
            assert(lv.take(i + 1).drop_last() =~= lv.take(i as int));
            assert(lv.take(i + 1).last() == ls@[i as int]@);
        }
        let line = &ls[i];
        let starts = {
            let ts = trim_start_chars(line);
            has_prefix(&ts, &key)
        };
        if starts {
            if current.len() > 0 {
                let block_text = string_from(&current);
                if is_host_block(block_text.as_str(), host) {
                    extend(&mut output, &nb);
                    output.push('\n');
                    replaced = true;
                } else {
                    extend(&mut output, &current);
                }
                current = Vec::new();
            }
        }
        extend(&mut current, line);
        current.push('\n');
        proof {
            let nbs = blocks(lv.take(i + 1));
            let l = ls@[i as int]@;
            if bs.len() == 0 || opens_block(l) {
                assert(nbs == bs.push(seq![l]));
                assert(nbs.last() == seq![l]);
                assert(seq![l].drop_last() =~= Seq::<Seq<char>>::empty());
                assert(seq![l].last() == l);
                assert(join_lines(Seq::<Seq<char>>::empty()) =~= Seq::<char>::empty());
                assert(join_lines(seq![l]) =~= l.push('\n'));
                assert(nbs.drop_last() =~= bs);
                if bs.len() > 0 {
                    assert(bs =~= bs.drop_last().push(bs.last()));
                    lemma_has_block_push(bs.drop_last(), bs.last(), host@);
                }
            } else {
                assert(nbs == bs.update(bs.len() - 1, bs.last().push(l)));
                assert(nbs.drop_last() =~= bs.drop_last());
                assert(bs.last().push(l).drop_last() =~= bs.last());
            }
        }
        i = i + 1;
    }
    proof {
        assert(lv.take(ls.len() as int) =~= lv);
    }
    let ghost bs = blocks(lv);
    if current.len() > 0 {
        let block_text = string_from(&current);
        if is_host_block(block_text.as_str(), host) {
            extend(&mut output, &nb);
            output.push('\n');
            replaced = true;
        } else {
            extend(&mut output, &current);
        }
        proof {
            assert(bs =~= bs.drop_last().push(bs.last()));
            lemma_has_block_push(bs.drop_last(), bs.last(), host@);
        }
    }
    proof {
        assert(output@ == render_blocks(bs, host@, new_block));
        assert(replaced == has_block_of(bs, host@));
    }
    if !replaced {
        if !(output.len() > 0 && output[output.len() - 1] == '\n') {
            output.push('\n');
        }
        output.push('\n');
        extend(&mut output, &nb);
    }
    string_from(&output)
}

proof fn lemma_has_block_push(bs: Seq<Seq<Seq<char>>>, b: Seq<Seq<char>>, host: Seq<char>)
    ensures
        has_block_of(bs.push(b), host) == (has_block_of(bs, host) || is_block_of(
            join_lines(b),
            host,
        )),
{
    let nbs = bs.push(b);
    if has_block_of(bs, host) {
        let i = choose|i: int| 0 <= i < bs.len() && is_block_of(join_lines(#[trigger] bs[i]), host);
        assert(nbs[i] == bs[i]);
    }
    if is_block_of(join_lines(b), host) {
        assert(nbs[bs.len() as int] == b);
    }
    if has_block_of(nbs, host) {
        let i = choose|i: int| 0 <= i < nbs.len() && is_block_of(join_lines(#[trigger] nbs[i]), host);
        if i < bs.len() {
            assert(nbs[i] == bs[i]);
        }
    }
}

/// `s` with its leading whitespace removed, as `str::trim_start`.
pub fn trim_start_chars(s: &Vec<char>) -> (r: Vec<char>)
    ensures
        r@ == trim_start(s@),
{
    proof {
        assert(s@.subrange(0, s.len() as int) =~= s@);
    }
    let mut i: usize = 0;
    while i < s.len() && crate::text::is_whitespace(s[i])
        invariant
            i <= s.len(),
            trim_start(s@) == trim_start(s@.subrange(i as int, s.len() as int)),
        decreases s.len() - i,
    {
        proof {
            let t = s@.subrange(i as int, s.len() as int);
            assert(t.drop_first() =~= s@.subrange(i + 1, s.len() as int));
        }
        i = i + 1;
    }
    let r = skip_chars(s, i);
    proof {
        let t = s@.subrange(i as int, s.len() as int);
        assert(t =~= s@.skip(i as int));
        if t.len() > 0 {
            assert(t[0] == s@[i as int]);
        }
    }
    r
}

} // verus!

verus! {

/// A host of a parsed SSH configuration with its options, each a key and
/// a value, in order.
pub type HostOptions = (Seq<char>, Seq<(Seq<char>, Seq<char>)>);

/// What `ssh_cfg::SshConfigParser::parse_config_contents` makes of the
/// text: the hosts in order, each with its options written as key and
/// value; `None` where the text does not parse.
pub uninterp spec fn ssh_config_parse(contents: Seq<char>) -> Option<Seq<HostOptions>>;

/// Calls `SshConfigParser::parse_config_contents` of `ssh_cfg` and writes
/// each option key with its `Display` (which spells every key differently,
/// so keys compare as their texts do). Claimed: the result is the named
/// `ssh_config_parse` of the text. Which texts parse, and how, rests on
/// the crate's parser and is not stated here.
#[verifier::external_body]
pub(crate) fn parse_ssh_config(contents: &str) -> (r: Option<Vec<(String, Vec<(String, String)>)>>)
    ensures
        match r {
            Some(v) => ssh_config_parse(contents@) == Some(
                v@.map_values(
                    |h: (String, Vec<(String, String)>)|
                        (h.0@, h.1@.map_values(|o: (String, String)| (o.0@, o.1@))),
                ),
            ),
            None => ssh_config_parse(contents@) is None,
        },
{
    match ssh_cfg::SshConfigParser::parse_config_contents(contents) {
        Ok(c) => Some(
            c.iter().map(
                |(h, hc)| (h.clone(), hc.iter().map(|(k, v)| (k.to_string(), v.clone())).collect()),
            ).collect(),
        ),
        Err(_) => None,
    }
}

/// `Include`, the keyword of lines that pull in other files.
pub open spec fn include_keyword() -> Seq<char> {
    seq!['I', 'n', 'c', 'l', 'u', 'd', 'e']
}

/// The lines of `ls` that do (or, with `keep` false, do not) start with `Include`.
pub open spec fn include_lines(ls: Seq<Seq<char>>, keep: bool) -> Seq<Seq<char>>
    decreases ls.len(),
{
    if ls.len() == 0 {
        Seq::empty()
    } else {
        let p = include_lines(ls.drop_last(), keep);
        if starts_with(ls.last(), include_keyword()) == keep {
            p.push(ls.last())
        } else {
            p
        }
    }
}

/// The lines joined with line feeds between them.
pub open spec fn join_nl(ls: Seq<Seq<char>>) -> Seq<char>
    decreases ls.len(),
{
    if ls.len() == 0 {
        Seq::empty()
    } else if ls.len() == 1 {
        ls[0]
    } else {
        join_nl(ls.drop_last()) + seq!['\n'] + ls.last()
    }
}

/// The options with `key` set to `value`: an existing key keeps its
/// place, a new one goes last.
pub open spec fn set_option(opts: Seq<(Seq<char>, Seq<char>)>, key: Seq<char>, value: Seq<char>) -> Seq<
    (Seq<char>, Seq<char>),
> {
    if exists|i: int| 0 <= i < opts.len() && opts[i].0 == key {
        let i = choose|i: int|
            0 <= i < opts.len() && opts[i].0 == key && forall|j: int| 0 <= j < i ==> opts[j].0 != key;
        opts.update(i, (key, value))
    } else {
        opts.push((key, value))
    }
}

/// The options of a host written out, each on a line of its own after a tab.
pub open spec fn render_options(opts: Seq<(Seq<char>, Seq<char>)>) -> Seq<char>
    decreases opts.len(),
{
    if opts.len() == 0 {
        Seq::empty()
    } else {
        render_options(opts.drop_last()) + seq!['\n', '\t'] + opts.last().0 + seq![' ']
            + opts.last().1
    }
}

/// The hosts written out, each after two empty lines.
pub open spec fn render_hosts(hosts: Seq<HostOptions>) -> Seq<char>
    decreases hosts.len(),
{
    if hosts.len() == 0 {
        Seq::empty()
    } else {
        render_hosts(hosts.drop_last()) + seq!['\n', '\n', '\n'] + host_keyword() + hosts.last().0
            + render_options(hosts.last().1)
    }
}

/// The position of the first host named `host`, if there is one.
pub open spec fn host_index(hosts: Seq<HostOptions>, host: Seq<char>) -> Option<int> {
    if exists|i: int| 0 <= i < hosts.len() && hosts[i].0 == host {
        Some(choose|i: int| 0 <= i < hosts.len() && hosts[i].0 == host && forall|j: int| 0 <= j < i ==> hosts[j].0 != host)
    } else {
        None
    }
}

/// What updating a host of an SSH configuration comes to.
pub enum SshConfigUpdate {
    /// The new text of the configuration.
    Updated(String),
    /// No host of that name is configured.
    HostNotFound,
    /// The configuration, without its `Include` lines, does not parse.
    Unparsable,
}

/// The new text of the configuration: its `Include` lines, a line feed,
/// then every host with its options, the host named `host` with its
/// `HostName` set where one is given, and three line feeds at the end.
pub open spec fn updated_ssh_config(
    config: Seq<char>,
    hosts: Seq<HostOptions>,
    i: int,
    hostname: Option<Seq<char>>,
) -> Seq<char> {
    let hs = match hostname {
        Some(h) => hosts.update(i, (hosts[i].0, set_option(hosts[i].1, "HostName"@, h))),
        None => hosts,
    };
    join_nl(include_lines(lines(config), true)) + seq!['\n'] + render_hosts(hs) + seq![
        '\n',
        '\n',
        '\n',
    ]
}

/// The configuration without its `Include` lines, as it is parsed.
pub open spec fn without_includes(config: Seq<char>) -> Seq<char> {
    join_nl(include_lines(lines(config), false))
}

} // verus!

verus! {

proof fn lemma_first_index<T>(s: Seq<T>, p: spec_fn(T) -> bool, k: int)
    requires
        0 <= k < s.len(),
        p(s[k]),
        forall|j: int| 0 <= j < k ==> !p(s[j]),
    ensures
        (choose|i: int| 0 <= i < s.len() && p(s[i]) && forall|j: int| 0 <= j < i ==> !p(s[j])) == k,
{
    let c = choose|i: int| 0 <= i < s.len() && p(s[i]) && forall|j: int| 0 <= j < i ==> !p(s[j]);
    assert(0 <= c < s.len() && p(s[c]) && forall|j: int| 0 <= j < c ==> !p(s[j]));
    if c < k {
        assert(!p(s[c]));
    } else if c > k {
        assert(!p(s[k]));
    }
}

/// The lines joined with line feeds between them.
fn join_with_nl(ls: &Vec<Vec<char>>) -> (r: Vec<char>)
    ensures
        r@ == join_nl(ls@.map_values(|l: Vec<char>| l@)),
{
    let ghost lv = ls@.map_values(|l: Vec<char>| l@);
    let mut out: Vec<char> = Vec::new();
    let mut i: usize = 0;
    while i < ls.len()
        invariant
            lv == ls@.map_values(|l: Vec<char>| l@),
            i <= ls.len(),
            out@ == join_nl(lv.take(i as int)),
        decreases ls.len() - i,
    {
        proof {
            assert(lv.take(i + 1).drop_last() =~= lv.take(i as int));
            assert(lv.take(i + 1).last() == ls@[i as int]@);
            if i == 0 {
                assert(lv.take(1)[0] == ls@[0]@);
            }
        }
        if i > 0 {
            out.push('\n');
        }
        crate::text::extend(&mut out, &ls[i]);
        i = i + 1;
    }
    proof {
        assert(lv.take(ls.len() as int) =~= lv);
    }
    out
}

/// The options with `key` set to `value`.
fn set_option_exec(opts: &Vec<(String, String)>, key: &str, value: &str) -> (r: Vec<(String, String)>)
    ensures
        r@.map_values(|o: (String, String)| (o.0@, o.1@)) == set_option(
            opts@.map_values(|o: (String, String)| (o.0@, o.1@)),
            key@,
            value@,
        ),
{
    let ghost ov = opts@.map_values(|o: (String, String)| (o.0@, o.1@));
    let ghost p = |o: (Seq<char>, Seq<char>)| o.0 == key@;
    let target = key.to_owned();
    let mut k: usize = 0;
    while k < opts.len() && !(opts[k].0 == target)
        invariant
            target@ == key@,
            ov == opts@.map_values(|o: (String, String)| (o.0@, o.1@)),
            k <= opts.len(),
            forall|j: int| 0 <= j < k ==> ov[j].0 != key@,
        decreases opts.len() - k,
    {
        k = k + 1;
    }
    let mut r: Vec<(String, String)> = Vec::new();
    let mut i: usize = 0;
    while i < opts.len()
        invariant
            target@ == key@,
            ov == opts@.map_values(|o: (String, String)| (o.0@, o.1@)),
            k <= opts.len(),
            i <= opts.len(),
            r@.map_values(|o: (String, String)| (o.0@, o.1@)) == (if k < opts.len() {
                ov.update(k as int, (key@, value@))
            } else {
                ov
            }).take(i as int),
        decreases opts.len() - i,
    {
        let ghost before = r@;
        if i == k {
            r.push((key.to_owned(), value.to_owned()));
        } else {
            r.push((opts[i].0.clone(), opts[i].1.clone()));
        }
        proof {
            let want = if k < opts.len() {
                ov.update(k as int, (key@, value@))
            } else {
                ov
            };
            assert(r@ == before.push(r@.last()));
            assert(want.take(i + 1) =~= want.take(i as int).push(want[i as int]));
            assert(r@.map_values(|o: (String, String)| (o.0@, o.1@)) =~= before.map_values(
                |o: (String, String)| (o.0@, o.1@),
            ).push((r@.last().0@, r@.last().1@)));
        }
        i = i + 1;
    }
    if k == opts.len() {
        r.push((key.to_owned(), value.to_owned()));
        proof {
            assert(!(exists|i: int| 0 <= i < ov.len() && ov[i].0 == key@));
            assert(ov.take(opts.len() as int) =~= ov);
        }
    } else {
        proof {
            assert(ov[k as int].0 == key@);
            lemma_first_index(ov, p, k as int);
            assert(ov.update(k as int, (key@, value@)).take(opts.len() as int) =~= ov.update(
                k as int,
                (key@, value@),
            ));
        }
    }
    proof {
        assert(r@.map_values(|o: (String, String)| (o.0@, o.1@)) =~= set_option(ov, key@, value@));
    }
    r
}

} // verus!

verus! {

/// The options written out, each on a line of its own after a tab.
fn render_options_exec(out: &mut Vec<char>, opts: &Vec<(String, String)>)
    ensures
        final(out)@ == old(out)@ + render_options(
            opts@.map_values(|o: (String, String)| (o.0@, o.1@)),
        ),
{
    let ghost ov = opts@.map_values(|o: (String, String)| (o.0@, o.1@));
    let ghost start = out@;
    let mut i: usize = 0;
    while i < opts.len()
        invariant
            ov == opts@.map_values(|o: (String, String)| (o.0@, o.1@)),
            i <= opts.len(),
            out@ == start + render_options(ov.take(i as int)),
        decreases opts.len() - i,
    {
        proof {
            assert(ov.take(i + 1).drop_last() =~= ov.take(i as int));
            assert(ov.take(i + 1).last() == ov[i as int]);
        }
        out.push('\n');
        out.push('\t');
        crate::text::extend_str(out, opts[i].0.as_str());
        out.push(' ');
        crate::text::extend_str(out, opts[i].1.as_str());
        proof {
            assert(out@ =~= start + render_options(ov.take(i + 1)));
        }
        i = i + 1;
    }
    proof {
        assert(ov.take(opts.len() as int) =~= ov);
    }
}

/// The hosts of a parsed configuration, each with its options, as texts.
pub open spec fn hosts_view(v: Seq<(String, Vec<(String, String)>)>) -> Seq<HostOptions> {
    v.map_values(
        |h: (String, Vec<(String, String)>)| (h.0@, h.1@.map_values(|o: (String, String)| (o.0@, o.1@))),
    )
}

/// The `Include` lines of `config` joined with line feeds, and the other
/// lines joined the same way.
pub fn include_parts(config: &str) -> (r: (Vec<char>, Vec<char>))
    ensures
        r.0@ == join_nl(include_lines(lines(config@), true)),
        r.1@ == join_nl(include_lines(lines(config@), false)),
{
    let cs = crate::text::chars_of(config);
    let ls = lines_of(&cs);
    let ghost lv = ls@.map_values(|l: Vec<char>| l@);
    let key = crate::text::chars_of("Include");
    proof {
        reveal_strlit("Include");
        assert(key@ =~= include_keyword());
    }
    let mut with: Vec<Vec<char>> = Vec::new();
    let mut without: Vec<Vec<char>> = Vec::new();
    let mut i: usize = 0;
    while i < ls.len()
        invariant
            key@ == include_keyword(),
            lv == ls@.map_values(|l: Vec<char>| l@),
            i <= ls.len(),
            with@.map_values(|l: Vec<char>| l@) == include_lines(lv.take(i as int), true),
            without@.map_values(|l: Vec<char>| l@) == include_lines(lv.take(i as int), false),
        decreases ls.len() - i,
    {
        proof {
            assert(lv.take(i + 1).drop_last() =~= lv.take(i as int));
            assert(lv.take(i + 1).last() == ls@[i as int]@);
        }
        let line = ls[i].clone();
        let ghost w0 = with@;
        let ghost o0 = without@;
        if has_prefix(&line, &key) {
            with.push(line);
            proof {
                assert(with@.map_values(|l: Vec<char>| l@) =~= w0.map_values(|l: Vec<char>| l@).push(
                    ls@[i as int]@,
                ));
            }
        } else {
            without.push(line);
            proof {
                assert(without@.map_values(|l: Vec<char>| l@) =~= o0.map_values(|l: Vec<char>| l@).push(
                    ls@[i as int]@,
                ));
            }
        }
        i = i + 1;
    }
    proof {
        assert(lv.take(ls.len() as int) =~= lv);
    }
    (join_with_nl(&with), join_with_nl(&without))
}

/// The SSH configuration `config` with the `HostName` of `host` set to
/// `hostname` where one is given, written back the way `webman` writes it: the
/// `Include` lines first, then every host and its options.
pub fn update_ssh_config(config: &str, host: &str, hostname: Option<&str>) -> (r: SshConfigUpdate)
    ensures
        match ssh_config_parse(without_includes(config@)) {
            None => r is Unparsable,
            Some(hosts) => match host_index(hosts, host@) {
                None => r is HostNotFound,
                Some(i) => r matches SshConfigUpdate::Updated(s) && s@ == updated_ssh_config(
                    config@,
                    hosts,
                    i,
                    match hostname {
                        Some(h) => Some(h@),
                        None => None,
                    },
                ),
            },
        },
{
    let (_, rest) = include_parts(config);
    let parsed = parse_ssh_config(string_from(&rest).as_str());
    update_parsed_ssh_config(config, parsed, host, hostname)
}

/// The configuration `config`, whose lines other than the `Include` lines
/// parsed into `parsed` (or did not parse, for `None`), with the
/// `HostName` of `host` set to `hostname` where one is given.
pub fn update_parsed_ssh_config(
    config: &str,
    parsed: Option<Vec<(String, Vec<(String, String)>)>>,
    host: &str,
    hostname: Option<&str>,
) -> (r: SshConfigUpdate)
    ensures
        match parsed {
            None => r is Unparsable,
            Some(v) => match host_index(hosts_view(v@), host@) {
                None => r is HostNotFound,
                Some(i) => r matches SshConfigUpdate::Updated(s) && s@ == updated_ssh_config(
                    config@,
                    hosts_view(v@),
                    i,
                    match hostname {
                        Some(h) => Some(h@),
                        None => None,
                    },
                ),
            },
        },
{
    let (includes, _) = include_parts(config);
    let hosts = match parsed {
        Some(h) => h,
        None => {
            return SshConfigUpdate::Unparsable;
        },
    };
    let ghost hv = hosts@.map_values(
        |h: (String, Vec<(String, String)>)| (h.0@, h.1@.map_values(|o: (String, String)| (o.0@, o.1@))),
    );
    let wanted = host.to_owned();
    let mut k: usize = 0;
    while k < hosts.len() && !(hosts[k].0 == wanted)
        invariant
            wanted@ == host@,
            hv == hosts@.map_values(
                |h: (String, Vec<(String, String)>)|
                    (h.0@, h.1@.map_values(|o: (String, String)| (o.0@, o.1@))),
            ),
            k <= hosts.len(),
            forall|j: int| 0 <= j < k ==> hv[j].0 != host@,
        decreases hosts.len() - k,
    {
        k = k + 1;
    }
    if k == hosts.len() {
        proof {
            assert(!(exists|j: int| 0 <= j < hv.len() && hv[j].0 == host@));
        }
        return SshConfigUpdate::HostNotFound;
    }
    proof {
        let p = |h: HostOptions| h.0 == host@;
        assert(hv[k as int].0 == host@);
        lemma_first_index(hv, p, k as int);
        assert(host_index(hv, host@) == Some(k as int));
    }
    let new_opts = match hostname {
        Some(h) => Some(set_option_exec(&hosts[k].1, "HostName", h)),
        None => None,
    };
    let ghost hs = match hostname {
        Some(h) => hv.update(k as int, (hv[k as int].0, set_option(hv[k as int].1, "HostName"@, h@))),
        None => hv,
    };
    let mut out: Vec<char> = includes;
    out.push('\n');
    let ghost head = out@;
    let mut j: usize = 0;
    while j < hosts.len()
        invariant
            hv == hosts@.map_values(
                |h: (String, Vec<(String, String)>)|
                    (h.0@, h.1@.map_values(|o: (String, String)| (o.0@, o.1@))),
            ),
            k < hosts.len(),
            hs.len() == hv.len(),
            forall|m: int| 0 <= m < hv.len() && m != k ==> hs[m] == hv[m],
            hs[k as int] == (hv[k as int].0, match new_opts {
                Some(v) => v@.map_values(|o: (String, String)| (o.0@, o.1@)),
                None => hv[k as int].1,
            }),
            j <= hosts.len(),
            out@ == head + render_hosts(hs.take(j as int)),
        decreases hosts.len() - j,
    {
        proof {
            assert(hs.take(j + 1).drop_last() =~= hs.take(j as int));
            assert(hs.take(j + 1).last() == hs[j as int]);
        }
        out.push('\n');
        out.push('\n');
        out.push('\n');
        crate::text::extend_str(&mut out, "Host ");
        crate::text::extend_str(&mut out, hosts[j].0.as_str());
        let ghost mid = out@;
        match &new_opts {
            Some(v) if j == k => render_options_exec(&mut out, v),
            _ => render_options_exec(&mut out, &hosts[j].1),
        }
        proof {
            reveal_strlit("Host ");
            assert("Host "@ =~= host_keyword());
            assert(out@ =~= head + render_hosts(hs.take(j + 1)));
        }
        j = j + 1;
    }
    out.push('\n');
    out.push('\n');
    out.push('\n');
    proof {
        assert(hs.take(hosts.len() as int) =~= hs);
        assert(out@ =~= updated_ssh_config(
            config@,
            hv,
            k as int,
            match hostname {
                Some(h) => Some(h@),
                None => None,
            },
        ));
    }
    SshConfigUpdate::Updated(string_from(&out))
}

} // verus!

verus! {

proof fn lemma_contains_extend(a: Seq<char>, b: Seq<char>, p: Seq<char>)
    requires
        crate::text::contains_seq(a, p),
    ensures
        crate::text::contains_seq(a + b, p),
{
    let i = choose|i: int| 0 <= i && i + p.len() <= a.len() && #[trigger] a.subrange(i, i + p.len()) == p;
    assert((a + b).subrange(i, i + p.len()) =~= a.subrange(i, i + p.len()));
}

proof fn lemma_contains_suffix(a: Seq<char>, p: Seq<char>, b: Seq<char>)
    ensures
        crate::text::contains_seq(a + p + b, p),
{
    assert((a + p + b).subrange(a.len() as int, (a.len() + p.len()) as int) =~= p);
}

proof fn lemma_render_contains(bs: Seq<Seq<Seq<char>>>, host: Seq<char>, nb: Seq<char>, i: int)
    requires
        0 <= i < bs.len(),
        is_block_of(join_lines(bs[i]), host),
    ensures
        crate::text::contains_seq(render_blocks(bs, host, nb), nb),
    decreases bs.len(),
{
    let d = bs.drop_last();
    if i < bs.len() - 1 {
        assert(d[i] == bs[i]);
        lemma_render_contains(d, host, nb, i);
        let t = join_lines(bs.last());
        lemma_contains_extend(
            render_blocks(d, host, nb),
            if is_block_of(t, host) {
                nb.push('\n')
            } else {
                t
            },
            nb,
        );
    } else {
        assert(bs.last() == bs[i]);
        lemma_contains_suffix(render_blocks(d, host, nb), nb, seq!['\n']);
        assert(render_blocks(d, host, nb) + nb + seq!['\n'] =~= render_blocks(d, host, nb)
            + nb.push('\n'));
    }
}

/// After `add_or_update_host`, the configuration holds the new block of
/// the host: in place of its old block, or at the end.
pub proof fn law_updated_config_holds_block(content: Seq<char>, host: Seq<char>, new_block: Seq<char>)
    ensures
        crate::text::contains_seq(updated_config(content, host, new_block), new_block),
{
    let bs = blocks(lines(content));
    if has_block_of(bs, host) {
        let i = choose|i: int| 0 <= i < bs.len() && is_block_of(join_lines(#[trigger] bs[i]), host);
        lemma_render_contains(bs, host, new_block, i);
    } else {
        let out = render_blocks(bs, host, new_block);
        let out2 = if out.len() > 0 && out.last() == '\n' {
            out
        } else {
            out.push('\n')
        };
        lemma_contains_suffix(out2.push('\n'), new_block, Seq::empty());
        assert(out2.push('\n') + new_block + Seq::<char>::empty() =~= out2.push('\n') + new_block);
    }
}

/// Setting an option leaves it among the options with the value given.
pub proof fn law_set_option_holds(opts: Seq<(Seq<char>, Seq<char>)>, key: Seq<char>, value: Seq<char>)
    ensures
        set_option(opts, key, value).contains((key, value)),
{
    let r = set_option(opts, key, value);
    if exists|i: int| 0 <= i < opts.len() && opts[i].0 == key {
        let w = choose|i: int| 0 <= i < opts.len() && opts[i].0 == key;
        let p = |o: (Seq<char>, Seq<char>)| o.0 == key;
        assert(p(opts[w]));
        let first = first_true(opts, p, w);
        lemma_first_index(opts, p, first);
        assert(r[first] == (key, value));
    } else {
        assert(r[opts.len() as int] == (key, value));
    }
}

/// The first position, at or below `w`, of an element satisfying `p`,
/// where `opts[w]` does.
proof fn first_true<T>(s: Seq<T>, p: spec_fn(T) -> bool, w: int) -> (k: int)
    requires
        0 <= w < s.len(),
        p(s[w]),
    ensures
        0 <= k <= w,
        p(s[k]),
        forall|j: int| 0 <= j < k ==> !p(s[j]),
    decreases w,
{
    if exists|j: int| 0 <= j < w && p(s[j]) {
        let j = choose|j: int| 0 <= j < w && p(s[j]);
        first_true(s, p, j)
    } else {
        w
    }
}

} // verus!

verus! {

/// `l` holds neither a line feed nor a carriage return.
pub open spec fn plain_line(l: Seq<char>) -> bool {
    !crate::text::has_char(l, '\n') && !crate::text::has_char(l, '\r')
}

/// `l` ends in a carriage return.
pub open spec fn ends_in_cr(l: Seq<char>) -> bool {
    l.len() > 0 && l.last() == '\r'
}

/// `l` holds no line feed and does not end in a carriage return: written
/// out as a line and read back, it comes back as it was.
pub open spec fn clean_line(l: Seq<char>) -> bool {
    !crate::text::has_char(l, '\n') && !ends_in_cr(l)
}

proof fn lemma_split_nl_plain(l: Seq<char>)
    requires
        !crate::text::has_char(l, '\n'),
    ensures
        crate::text::split_nl(l) == seq![l],
    decreases l.len(),
{
    if l.len() > 0 {
        let d = l.drop_last();
        assert(!crate::text::has_char(d, '\n')) by {
            if crate::text::has_char(d, '\n') {
                let i = choose|i: int| 0 <= i < d.len() && d[i] == '\n';
                assert(l[i] == '\n');
            }
        }
        lemma_split_nl_plain(d);
        assert(l.last() != '\n');
        assert(d.push(l.last()) =~= l);
    } else {
        assert(l =~= Seq::<char>::empty());
    }
}

proof fn lemma_split_nl_ends(s: Seq<char>)
    requires
        s.len() == 0 || s.last() == '\n',
    ensures
        crate::text::split_nl(s).len() >= 1,
        crate::text::split_nl(s).last() == Seq::<char>::empty(),
{
    crate::text::lemma_split_nl_nonempty(s);
}

proof fn lemma_split_nl_append(a: Seq<char>, b: Seq<char>)
    requires
        a.len() == 0 || a.last() == '\n',
    ensures
        crate::text::split_nl(a + b) == crate::text::split_nl(a).drop_last() + crate::text::split_nl(b),
    decreases b.len(),
{
    lemma_split_nl_ends(a);
    let pa = crate::text::split_nl(a);
    if b.len() == 0 {
        assert(a + b =~= a);
        assert(pa =~= pa.drop_last() + seq![Seq::<char>::empty()]);
    } else {
        let bd = b.drop_last();
        lemma_split_nl_append(a, bd);
        assert((a + b).drop_last() =~= a + bd);
        assert((a + b).last() == b.last());
        crate::text::lemma_split_nl_nonempty(bd);
        let pb = crate::text::split_nl(bd);
        if b.last() == '\n' {
            assert((pa.drop_last() + pb).push(Seq::<char>::empty()) =~= pa.drop_last() + pb.push(
                Seq::<char>::empty(),
            ));
        } else {
            let q = pa.drop_last() + pb;
            assert(q.last() == pb.last());
            assert(q.update(q.len() - 1, q.last().push(b.last())) =~= pa.drop_last() + pb.update(
                pb.len() - 1,
                pb.last().push(b.last()),
            ));
        }
    }
}

proof fn lemma_join_append(a: Seq<Seq<char>>, b: Seq<Seq<char>>)
    ensures
        join_lines(a + b) == join_lines(a) + join_lines(b),
    decreases b.len(),
{
    if b.len() == 0 {
        assert(a + b =~= a);
        assert(join_lines(a) + join_lines(b) =~= join_lines(a));
    } else {
        lemma_join_append(a, b.drop_last());
        assert((a + b).drop_last() =~= a + b.drop_last());
        assert((a + b).last() == b.last());
        assert(join_lines(a + b.drop_last()) + b.last().push('\n') =~= join_lines(a) + (join_lines(
            b.drop_last(),
        ) + b.last().push('\n')));
    }
}

proof fn lemma_join_ends(ls: Seq<Seq<char>>)
    ensures
        join_lines(ls).len() == 0 || join_lines(ls).last() == '\n',
{
    if ls.len() > 0 {
        assert((join_lines(ls.drop_last()) + ls.last().push('\n')).last() == '\n');
    }
}

/// Clean lines come back from their join.
proof fn lemma_lines_join(ls: Seq<Seq<char>>)
    requires
        forall|i: int| 0 <= i < ls.len() ==> clean_line(#[trigger] ls[i]),
    ensures
        crate::text::split_nl(join_lines(ls)) == ls.push(Seq::<char>::empty()),
        lines(join_lines(ls)) == ls,
    decreases ls.len(),
{
    if ls.len() == 0 {
        assert(crate::text::split_nl(Seq::<char>::empty()) == seq![Seq::<char>::empty()]);
        assert(ls.push(Seq::<char>::empty()) =~= seq![Seq::<char>::empty()]);
    } else {
        let d = ls.drop_last();
        let l = ls.last();
        assert(clean_line(l));
        assert forall|i: int| 0 <= i < d.len() implies clean_line(#[trigger] d[i]) by {
            assert(d[i] == ls[i]);
        }
        lemma_lines_join(d);
        lemma_join_ends(d);
        lemma_split_nl_append(join_lines(d), l.push('\n'));
        lemma_split_nl_plain(l);
        assert(l.push('\n').drop_last() =~= l);
        assert(crate::text::split_nl(l.push('\n')) == seq![l, Seq::<char>::empty()]);
        assert(d.push(Seq::<char>::empty()).drop_last() =~= d);
        assert(d + seq![l, Seq::<char>::empty()] =~= ls.push(Seq::<char>::empty()));
    }
    let p = crate::text::split_nl(join_lines(ls));
    assert(p.drop_last() =~= ls);
    assert forall|i: int| 0 <= i < ls.len() implies crate::text::strip_cr(#[trigger] ls[i]) == ls[i] by {
        assert(clean_line(ls[i]));
    }
    assert(p.drop_last().map_values(|l: Seq<char>| crate::text::strip_cr(l)) =~= ls);
}

} // verus!

verus! {

/// The lines of the blocks, one block after another.
pub open spec fn flatten(bs: Seq<Seq<Seq<char>>>) -> Seq<Seq<char>>
    decreases bs.len(),
{
    if bs.len() == 0 {
        Seq::empty()
    } else {
        flatten(bs.drop_last()) + bs.last()
    }
}

/// Every block has lines; every block but the first opens with a `Host `
/// line, and no later line of a block opens one.
pub open spec fn blocks_ok(bs: Seq<Seq<Seq<char>>>) -> bool {
    forall|i: int|
        0 <= i < bs.len() ==> {
            &&& (#[trigger] bs[i]).len() > 0
            &&& i > 0 ==> opens_block(bs[i][0])
            &&& forall|j: int| 1 <= j < bs[i].len() ==> !opens_block(#[trigger] bs[i][j])
        }
}

proof fn lemma_blocks_ok(ls: Seq<Seq<char>>)
    ensures
        blocks_ok(blocks(ls)),
        flatten(blocks(ls)) == ls,
    decreases ls.len(),
{
    if ls.len() == 0 {
        assert(flatten(Seq::<Seq<Seq<char>>>::empty()) =~= ls);
    } else {
        let d = ls.drop_last();
        let x = ls.last();
        lemma_blocks_ok(d);
        let b = blocks(d);
        let r = blocks(ls);
        if b.len() == 0 || opens_block(x) {
            assert(r == b.push(seq![x]));
            assert(r.drop_last() =~= b);
            assert(flatten(r) =~= d + seq![x]);
            assert(d + seq![x] =~= ls);
            assert forall|i: int| 0 <= i < r.len() implies {
                &&& (#[trigger] r[i]).len() > 0
                &&& i > 0 ==> opens_block(r[i][0])
                &&& forall|j: int| 1 <= j < r[i].len() ==> !opens_block(#[trigger] r[i][j])
            } by {
                if i < b.len() {
                    assert(r[i] == b[i]);
                }
            }
        } else {
            let last = b.last();
            assert(r == b.update(b.len() - 1, last.push(x)));
            assert(r.drop_last() =~= b.drop_last());
            assert(flatten(b) == flatten(b.drop_last()) + last);
            assert(flatten(r) =~= flatten(b.drop_last()) + last + seq![x]);
            assert(d + seq![x] =~= ls);
            assert forall|i: int| 0 <= i < r.len() implies {
                &&& (#[trigger] r[i]).len() > 0
                &&& i > 0 ==> opens_block(r[i][0])
                &&& forall|j: int| 1 <= j < r[i].len() ==> !opens_block(#[trigger] r[i][j])
            } by {
                if i < b.len() - 1 {
                    assert(r[i] == b[i]);
                } else {
                    assert(r[i] == last.push(x));
                    assert(b[i] == last);
                    assert forall|j: int| 1 <= j < r[i].len() implies !opens_block(#[trigger] r[i][j]) by {
                        if j < last.len() {
                            assert(r[i][j] == last[j]);
                        }
                    }
                    assert(r[i][0] == last[0]);
                }
            }
        }
    }
}

proof fn lemma_blocks_extend(x: Seq<Seq<char>>, b: Seq<Seq<char>>, j: int)
    requires
        1 <= j <= b.len(),
        blocks(x).len() == 0 || opens_block(b[0]),
        forall|m: int| 1 <= m < b.len() ==> !opens_block(#[trigger] b[m]),
    ensures
        blocks(x + b.take(j)) == blocks(x).push(b.take(j)),
    decreases j,
{
    let y = x + b.take(j);
    assert(y.drop_last() =~= x + b.take(j - 1));
    assert(y.last() == b[j - 1]);
    if j == 1 {
        assert(x + b.take(0) =~= x);
        assert(b.take(1) =~= seq![b[0]]);
    } else {
        lemma_blocks_extend(x, b, j - 1);
        let bb = blocks(x).push(b.take(j - 1));
        assert(!opens_block(b[j - 1]));
        assert(bb.last() == b.take(j - 1));
        assert(b.take(j - 1).push(b[j - 1]) =~= b.take(j));
        assert(bb.update(bb.len() - 1, bb.last().push(b[j - 1])) =~= blocks(x).push(b.take(j)));
    }
}

proof fn lemma_blocks_flatten(bs: Seq<Seq<Seq<char>>>)
    requires
        blocks_ok(bs),
    ensures
        blocks(flatten(bs)) == bs,
    decreases bs.len(),
{
    if bs.len() == 0 {
        assert(blocks(Seq::<Seq<char>>::empty()) =~= bs);
    } else {
        let d = bs.drop_last();
        let b = bs.last();
        assert(blocks_ok(d)) by {
            assert forall|i: int| 0 <= i < d.len() implies {
                &&& (#[trigger] d[i]).len() > 0
                &&& i > 0 ==> opens_block(d[i][0])
                &&& forall|j: int| 1 <= j < d[i].len() ==> !opens_block(#[trigger] d[i][j])
            } by {
                assert(d[i] == bs[i]);
            }
        }
        lemma_blocks_flatten(d);
        assert(bs[bs.len() - 1] == b);
        assert(forall|m: int| 1 <= m < b.len() ==> !opens_block(#[trigger] b[m]));
        lemma_blocks_extend(flatten(d), b, b.len() as int);
        assert(b.take(b.len() as int) =~= b);
        assert(d.push(b) =~= bs);
    }
}

} // verus!

verus! {

/// Every line of `ls` is clean.
pub open spec fn all_clean(ls: Seq<Seq<char>>) -> bool {
    forall|i: int| 0 <= i < ls.len() ==> clean_line(#[trigger] ls[i])
}

proof fn lemma_split_nl_chars(s: Seq<char>)
    ensures
        forall|i: int, j: int|
            0 <= i < crate::text::split_nl(s).len() && 0 <= j < crate::text::split_nl(s)[i].len()
                ==> #[trigger] crate::text::split_nl(s)[i][j] != '\n',
    decreases s.len(),
{
    crate::text::lemma_split_nl_nonempty(s);
    if s.len() > 0 {
        let d = s.drop_last();
        lemma_split_nl_chars(d);
        crate::text::lemma_split_nl_nonempty(d);
        let p = crate::text::split_nl(d);
        let q = crate::text::split_nl(s);
        assert forall|i: int, j: int| 0 <= i < q.len() && 0 <= j < q[i].len() implies #[trigger] q[i][j]
            != '\n' by {
            if s.last() == '\n' {
                if i < p.len() {
                    assert(q[i] == p[i]);
                }
            } else if i < p.len() - 1 {
                assert(q[i] == p[i]);
            } else {
                assert(q[i] == p.last().push(s.last()));
                if j < p.last().len() {
                    assert(q[i][j] == p[p.len() - 1][j]);
                } else {
                    assert(q[i][j] == s[s.len() - 1]);
                }
            }
        }
    }
}

/// No line of a text holds a line feed.
proof fn lemma_lines_no_nl(s: Seq<char>)
    ensures
        forall|i: int| 0 <= i < lines(s).len() ==> !crate::text::has_char(#[trigger] lines(s)[i], '\n'),
{
    lemma_split_nl_chars(s);
    crate::text::lemma_split_nl_nonempty(s);
    let p = crate::text::split_nl(s);
    let ls = lines(s);
    assert forall|i: int| 0 <= i < ls.len() implies !crate::text::has_char(#[trigger] ls[i], '\n') by {
        let l = ls[i];
        let src = p[i];
        assert(forall|j: int| 0 <= j < src.len() ==> #[trigger] src[j] != '\n');
        if i < p.len() - 1 {
            assert(l == crate::text::strip_cr(src));
        } else {
            assert(l == src);
        }
        assert(forall|j: int| 0 <= j < l.len() ==> l[j] == src[j]);
        if crate::text::has_char(l, '\n') {
            let j = choose|j: int| 0 <= j < l.len() && l[j] == '\n';
            assert(src[j] != '\n');
        }
    }
}

/// A property holds of every line of the blocks together exactly when it
/// holds of every line of every block.
proof fn lemma_flatten_all(bs: Seq<Seq<Seq<char>>>, p: spec_fn(Seq<char>) -> bool)
    ensures
        (forall|m: int| 0 <= m < flatten(bs).len() ==> p(#[trigger] flatten(bs)[m])) <==> (forall|
            k: int,
            j: int,
        | 0 <= k < bs.len() && 0 <= j < bs[k].len() ==> p(#[trigger] bs[k][j])),
    decreases bs.len(),
{
    if bs.len() > 0 {
        let d = bs.drop_last();
        let b = bs.last();
        lemma_flatten_all(d, p);
        let f = flatten(d);
        assert(flatten(bs) == f + b);
        if forall|m: int| 0 <= m < (f + b).len() ==> p(#[trigger] (f + b)[m]) {
            assert forall|m: int| 0 <= m < f.len() implies p(#[trigger] f[m]) by {
                assert((f + b)[m] == f[m]);
            }
            assert forall|k: int, j: int| 0 <= k < bs.len() && 0 <= j < bs[k].len() implies p(
                #[trigger] bs[k][j],
            ) by {
                if k < d.len() {
                    assert(bs[k] == d[k]);
                } else {
                    assert((f + b)[f.len() + j] == b[j]);
                }
            }
        }
        if forall|k: int, j: int| 0 <= k < bs.len() && 0 <= j < bs[k].len() ==> p(#[trigger] bs[k][j]) {
            assert forall|k: int, j: int| 0 <= k < d.len() && 0 <= j < d[k].len() implies p(
                #[trigger] d[k][j],
            ) by {
                assert(bs[k] == d[k]);
            }
            assert forall|m: int| 0 <= m < (f + b).len() implies p(#[trigger] (f + b)[m]) by {
                if m >= f.len() {
                    assert(bs[bs.len() - 1][m - f.len()] == b[m - f.len()]);
                }
            }
        }
    }
}

} // verus!

verus! {

/// The lines of the block that `host_block_text` writes, and the empty
/// line that follows it when it replaces a block.
pub open spec fn new_block_lines(
    host: Seq<char>,
    hostname: Seq<char>,
    user: Seq<char>,
    identity_file: Seq<char>,
) -> Seq<Seq<char>> {
    seq![
        host_keyword() + host,
        seq!['\t', 'H', 'o', 's', 't', 'N', 'a', 'm', 'e', ' '] + hostname,
        seq!['\t', 'U', 's', 'e', 'r', ' '] + user,
        seq!['\t', 'I', 'd', 'e', 'n', 't', 'i', 't', 'y', 'F', 'i', 'l', 'e', ' '] + identity_file,
        seq!['\t', 'I', 'd', 'e', 'n', 't', 'i', 't', 'i', 'e', 's', 'O', 'n', 'l', 'y', ' ', 'y', 'e', 's'],
        Seq::<char>::empty(),
    ]
}

proof fn lemma_new_block_join(host: Seq<char>, hostname: Seq<char>, user: Seq<char>, identity_file: Seq<char>)
    ensures
        join_lines(new_block_lines(host, hostname, user, identity_file)) == host_block_text(
            host,
            hostname,
            user,
            identity_file,
        ).push('\n'),
{
    let n = new_block_lines(host, hostname, user, identity_file);
    assert(n.drop_last().drop_last().drop_last().drop_last().drop_last().drop_last() =~= Seq::<Seq<char>>::empty());
    reveal_with_fuel(join_lines, 7);
    assert(join_lines(n) =~= host_block_text(host, hostname, user, identity_file).push('\n'));
}

/// The blocks with every block of `host` replaced by `nbl`.
pub open spec fn replaced(bs: Seq<Seq<Seq<char>>>, host: Seq<char>, nbl: Seq<Seq<char>>) -> Seq<Seq<Seq<char>>> {
    Seq::new(bs.len(), |i: int| if is_block_of(join_lines(bs[i]), host) { nbl } else { bs[i] })
}

proof fn lemma_render(bs: Seq<Seq<Seq<char>>>, host: Seq<char>, nb: Seq<char>, nbl: Seq<Seq<char>>)
    requires
        nb.push('\n') == join_lines(nbl),
    ensures
        render_blocks(bs, host, nb) == join_lines(flatten(replaced(bs, host, nbl))),
    decreases bs.len(),
{
    if bs.len() == 0 {
        assert(flatten(replaced(bs, host, nbl)) =~= Seq::<Seq<char>>::empty());
    } else {
        let d = bs.drop_last();
        lemma_render(d, host, nb, nbl);
        let r = replaced(bs, host, nbl);
        assert(r.drop_last() =~= replaced(d, host, nbl));
        lemma_join_append(flatten(replaced(d, host, nbl)), r.last());
        assert(r.last() == r[bs.len() - 1]);
    }
}

} // verus!

verus! {

proof fn lemma_trimmed_ends(s: Seq<char>)
    requires
        s.len() > 0,
        !is_ws(s[0]),
        !is_ws(s.last()),
    ensures
        trim(s) == s,
{
    assert(trim_start(s) == s);
    assert(crate::text::trim_end(s) == s);
}

/// What trimming leaves is a run of the text, and, where not empty, starts
/// and ends with a character that is not whitespace.
proof fn lemma_trim_run(s: Seq<char>)
    ensures
        exists|a: int, b: int| 0 <= a <= b <= s.len() && trim(s) == s.subrange(a, b),
        trim(s).len() > 0 ==> !is_ws(trim(s)[0]) && !is_ws(trim(s).last()),
{
    crate::text::lemma_trim_start_blank(s);
    let t = trim_start(s);
    crate::text::lemma_trim_end_blank(t);
    let u = crate::text::trim_end(t);
    let a = s.len() - t.len();
    assert(u =~= s.subrange(a, a + u.len()));
    if u.len() > 0 {
        assert(u[0] == t[0]);
    }
}

proof fn lemma_run_no_nl(s: Seq<char>, a: int, b: int)
    requires
        0 <= a <= b <= s.len(),
        !crate::text::has_char(s, '\n'),
    ensures
        !crate::text::has_char(s.subrange(a, b), '\n'),
{
    let r = s.subrange(a, b);
    if crate::text::has_char(r, '\n') {
        let k = choose|k: int| 0 <= k < r.len() && r[k] == '\n';
        assert(s[a + k] == '\n');
    }
}

/// The host that lines without line feeds name holds no line feed, is not
/// empty, and has no whitespace at either end.
proof fn lemma_first_host_facts(ls: Seq<Seq<char>>, h: Seq<char>)
    requires
        forall|i: int| 0 <= i < ls.len() ==> !crate::text::has_char(#[trigger] ls[i], '\n'),
        first_host(ls) == Some(h),
    ensures
        h.len() > 0,
        !is_ws(h[0]),
        !is_ws(h.last()),
        !crate::text::has_char(h, '\n'),
    decreases ls.len(),
{
    let l = ls[0];
    let t = trim(l);
    if starts_with(t, host_keyword()) {
        lemma_trim_run(l);
        let (a, b) = choose|a: int, b: int| 0 <= a <= b <= l.len() && t == l.subrange(a, b);
        assert(!crate::text::has_char(ls[0], '\n'));
        lemma_run_no_nl(l, a, b);
        assert(t[4] == ' ');
        assert(!is_ws(t.last()));
        assert(t.len() > 5);
        let w = t.skip(5);
        assert(w =~= t.subrange(5, t.len() as int));
        lemma_run_no_nl(t, 5, t.len() as int);
        assert(w.last() == t.last());
        lemma_trim_run(w);
        crate::text::lemma_trim_blank(w);
        assert(!crate::text::is_blank(w)) by {
            assert(!is_ws(w[w.len() - 1]));
        }
        let (c, d) = choose|c: int, d: int| 0 <= c <= d <= w.len() && trim(w) == w.subrange(c, d);
        lemma_run_no_nl(w, c, d);
    } else {
        let rest = ls.drop_first();
        assert forall|i: int| 0 <= i < rest.len() implies !crate::text::has_char(#[trigger] rest[i], '\n') by {
            assert(rest[i] == ls[i + 1]);
        }
        lemma_first_host_facts(rest, h);
    }
}

proof fn lemma_new_block_shape(host: Seq<char>, hostname: Seq<char>, user: Seq<char>, identity_file: Seq<char>)
    requires
        host.len() > 0,
        !is_ws(host[0]),
        !is_ws(host.last()),
        !crate::text::has_char(host, '\n'),
        plain_line(hostname),
        plain_line(user),
        plain_line(identity_file),
    ensures
        all_clean(new_block_lines(host, hostname, user, identity_file)),
        opens_block(new_block_lines(host, hostname, user, identity_file)[0]),
        forall|j: int|
            1 <= j < new_block_lines(host, hostname, user, identity_file).len() ==> !opens_block(
                #[trigger] new_block_lines(host, hostname, user, identity_file)[j],
            ),
        first_host(new_block_lines(host, hostname, user, identity_file)) == Some(host),
{
    let n = new_block_lines(host, hostname, user, identity_file);
    assert forall|i: int| 0 <= i < n.len() implies clean_line(#[trigger] n[i]) by {
        let l = n[i];
        let (lit, v) = if i == 0 {
            (host_keyword(), host)
        } else if i == 1 {
            (seq!['\t', 'H', 'o', 's', 't', 'N', 'a', 'm', 'e', ' '], hostname)
        } else if i == 2 {
            (seq!['\t', 'U', 's', 'e', 'r', ' '], user)
        } else if i == 3 {
            (seq!['\t', 'I', 'd', 'e', 'n', 't', 'i', 't', 'y', 'F', 'i', 'l', 'e', ' '], identity_file)
        } else if i == 4 {
            (n[4], Seq::<char>::empty())
        } else {
            (Seq::<char>::empty(), Seq::<char>::empty())
        };
        assert(l =~= lit + v);
        assert(forall|k: int| 0 <= k < lit.len() ==> #[trigger] lit[k] != '\n' && lit[k] != '\r');
        if crate::text::has_char(l, '\n') {
            let k = choose|k: int| 0 <= k < l.len() && l[k] == '\n';
            if k >= lit.len() {
                assert(v[k - lit.len()] == '\n');
            }
        }
        if ends_in_cr(l) {
            if v.len() > 0 {
                assert(l.last() == v.last());
                if i == 0 {
                    assert(is_ws('\r'));
                } else {
                    assert(v[v.len() - 1] == '\r');
                }
            } else {
                assert(l =~= lit);
                assert(l.last() == lit[lit.len() - 1]);
            }
        }
    }
    let l0 = n[0];
    assert(trim_start(l0) == l0);
    assert(l0.take(5) =~= host_keyword());
    assert forall|j: int| 1 <= j < n.len() implies !opens_block(#[trigger] n[j]) by {
        let l = n[j];
        if j < 5 {
            assert(is_ws(l[0]));
            assert(trim_start(l) == trim_start(l.drop_first()));
            assert(!is_ws(l.drop_first()[0]));
            assert(trim_start(l.drop_first()) == l.drop_first());
            if starts_with(l.drop_first(), host_keyword()) {
                assert(l.drop_first().take(5)[0] == l.drop_first()[0]);
                assert(l.drop_first().take(5)[4] == l.drop_first()[4]);
            }
        } else {
            assert(trim_start(l) == l);
        }
    }
    lemma_trimmed_ends(l0);
    assert(l0.skip(5) =~= host);
    lemma_trimmed_ends(host);
}

} // verus!

verus! {

/// Adding or updating a host twice in a row changes nothing the second
/// time: where the configuration already has a block of `host`, no line
/// of its other blocks ends in a carriage return (as read line by line,
/// which takes one off a line that ends in `\r\n`), and the host name,
/// user and identity file are single lines, the second call gives back
/// what the first one wrote.
pub proof fn law_add_or_update_host_idempotent(
    content: Seq<char>,
    host: Seq<char>,
    hostname: Seq<char>,
    user: Seq<char>,
    identity_file: Seq<char>,
)
    requires
        has_block_of(blocks(lines(content)), host),
        forall|k: int, j: int|
            0 <= k < blocks(lines(content)).len() && !is_block_of(
                join_lines(blocks(lines(content))[k]),
                host,
            ) && 0 <= j < blocks(lines(content))[k].len() ==> !ends_in_cr(
                #[trigger] blocks(lines(content))[k][j],
            ),
        plain_line(hostname),
        plain_line(user),
        plain_line(identity_file),
    ensures
        updated_config(
            updated_config(content, host, host_block_text(host, hostname, user, identity_file)),
            host,
            host_block_text(host, hostname, user, identity_file),
        ) == updated_config(content, host, host_block_text(host, hostname, user, identity_file)),
{
    let nb = host_block_text(host, hostname, user, identity_file);
    let nbl = new_block_lines(host, hostname, user, identity_file);
    let ls = lines(content);
    let bs = blocks(ls);
    let no_nl = |l: Seq<char>| !crate::text::has_char(l, '\n');
    let clean = |l: Seq<char>| clean_line(l);
    // No line of any block holds a line feed.
    lemma_lines_no_nl(content);
    lemma_blocks_ok(ls);
    assert forall|m: int| 0 <= m < flatten(bs).len() implies no_nl(#[trigger] flatten(bs)[m]) by {
        assert(flatten(bs)[m] == ls[m]);
    }
    lemma_flatten_all(bs, no_nl);
    // The host that its block names.
    let i = choose|i: int| 0 <= i < bs.len() && is_block_of(join_lines(#[trigger] bs[i]), host);
    lemma_lines_no_nl(join_lines(bs[i]));
    lemma_first_host_facts(lines(join_lines(bs[i])), host);
    lemma_new_block_shape(host, hostname, user, identity_file);
    lemma_new_block_join(host, hostname, user, identity_file);
    lemma_lines_join(nbl);
    assert(is_block_of(join_lines(nbl), host));
    let r = replaced(bs, host, nbl);
    // The first call renders the blocks with the host's blocks replaced.
    lemma_render(bs, host, nb, nbl);
    let c1 = updated_config(content, host, nb);
    assert(c1 == join_lines(flatten(r)));
    // Its lines are those blocks again.
    assert forall|k: int, j: int| 0 <= k < r.len() && 0 <= j < r[k].len() implies clean(
        #[trigger] r[k][j],
    ) by {
        if is_block_of(join_lines(bs[k]), host) {
            assert(r[k] == nbl);
            assert(clean_line(nbl[j]));
        } else {
            assert(r[k] == bs[k]);
            assert(no_nl(bs[k][j]));
            assert(!ends_in_cr(blocks(lines(content))[k][j]));
        }
    }
    lemma_flatten_all(r, clean);
    assert forall|m: int| 0 <= m < flatten(r).len() implies clean_line(#[trigger] flatten(r)[m]) by {
        assert(clean(flatten(r)[m]));
    }
    lemma_lines_join(flatten(r));
    assert(blocks_ok(r)) by {
        assert forall|k: int| 0 <= k < r.len() implies {
            &&& (#[trigger] r[k]).len() > 0
            &&& k > 0 ==> opens_block(r[k][0])
            &&& forall|j: int| 1 <= j < r[k].len() ==> !opens_block(#[trigger] r[k][j])
        } by {
            assert(bs[k].len() > 0);
        }
    }
    lemma_blocks_flatten(r);
    assert(blocks(lines(c1)) == r);
    // The host's block is still there, and nothing changes when it is
    // replaced again.
    assert(is_block_of(join_lines(r[i]), host));
    assert(has_block_of(r, host));
    assert(replaced(r, host, nbl) =~= r);
    lemma_render(r, host, nb, nbl);
}

} // verus!
