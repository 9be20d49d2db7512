//! Network views: the interfaces and routes that `ip -j` prints, the TCP
//! connections listed by `ss`, and the DNS servers of `/etc/resolv.conf`.
use vstd::prelude::*;
use crate::text::{
    chars_of, has_prefix, join, join_from, lines, lines_of, slice_chars, starts_with, string_of, string_views,
    trim, trim_chars, views, words, words_of,
};

verus! {

/// Why the JSON output of a command could not be used.
#[derive(Clone, Copy, PartialEq, Eq, Debug, Structural)]
pub enum CommandError {
    /// The command did not succeed.
    Failed,
    /// Its output is not JSON.
    BadOutput,
}

/// What `serde_json` makes of command output: the compact JSON text of the
/// value it parses to (`Value`'s `Display`); none when it is no JSON.
pub uninterp spec fn json_text(output: Seq<u8>) -> Option<Seq<char>>;

/// Parses command output with `serde_json::from_slice::<Value>` and writes
/// the value back as compact text. The contract names the result.
#[verifier::external_body]
fn json_text_of(output: &[u8]) -> (r: Option<String>)
    ensures
        match r {
            Some(t) => json_text(output@) == Some(t@),
            None => json_text(output@) is None,
        },
{
    serde_json::from_slice::<serde_json::Value>(output).ok().map(|v| v.to_string())
}

/// The JSON a command printed (`ip -j addr`, `ip -j route`): refused when
/// the command failed or its output is no JSON.
pub fn command_json(succeeded: bool, output: &[u8]) -> (r: Result<String, CommandError>)
    ensures
        !succeeded ==> r == Err::<String, CommandError>(CommandError::Failed),
        succeeded ==> match json_text(output@) {
            Some(t) => r matches Ok(s) && s@ == t,
            None => r == Err::<String, CommandError>(CommandError::BadOutput),
        },
{
    if !succeeded {
        return Err(CommandError::Failed);
    }
    match json_text_of(output) {
        Some(t) => Ok(t),
        None => Err(CommandError::BadOutput),
    }
}

/// One TCP connection of `ss -t -a -n -p`.
pub struct Connection {
    pub state: String,
    pub recv_q: String,
    pub send_q: String,
    pub local: String,
    pub peer: String,
    /// The process column (what remains of the line), words joined by
    /// single spaces.
    pub process: String,
}

/// The fields of a connection.
pub type ConnItem = (Seq<char>, Seq<char>, Seq<char>, Seq<char>, Seq<char>, Seq<char>);

pub open spec fn conn_view(c: Connection) -> ConnItem {
    (c.state@, c.recv_q@, c.send_q@, c.local@, c.peer@, c.process@)
}

pub open spec fn conn_views(cs: Seq<Connection>) -> Seq<ConnItem> {
    cs.map_values(|c: Connection| conn_view(c))
}

/// The connections of the lines `ls`: lines of at least five words
/// `State Recv-Q Send-Q Local:Port Peer:Port`, the rest being the process.
pub open spec fn conn_items(ls: Seq<Seq<char>>) -> Seq<ConnItem>
    decreases ls.len(),
{
    if ls.len() == 0 {
        Seq::empty()
    } else {
        let r = conn_items(ls.drop_last());
        let w = words(ls.last());
        if w.len() >= 5 {
            r.push((w[0], w[1], w[2], w[3], w[4], join(w.skip(5), " "@)))
        } else {
            r
        }
    }
}

/// The connections in `ss` output, after its header line.
pub open spec fn connections_spec(text: Seq<char>) -> Seq<ConnItem> {
    let ls = lines(text);
    if ls.len() == 0 {
        Seq::empty()
    } else {
        conn_items(ls.skip(1))
    }
}

/// Reads the output of `ss -t -a -n -p`.
pub fn parse_connections(text: &str) -> (list: Vec<Connection>)
    ensures
        conn_views(list@) == connections_spec(text@),
{
    let cv = chars_of(text);
    let ls = lines_of(&cv);
    let ghost all = views(ls@);
    let mut list: Vec<Connection> = Vec::new();
    if ls.len() == 0 {
        assert(conn_views(list@) =~= Seq::<ConnItem>::empty());
        return list;
    }
    let ghost body = all.skip(1);
    let sp = chars_of(" ");
    let mut i: usize = 1;
    assert(body.take(0) =~= Seq::<Seq<char>>::empty());
    assert(conn_views(list@) =~= Seq::<ConnItem>::empty());
    while i < ls.len()
        invariant
            1 <= i <= ls@.len(),
            all == views(ls@),
            all == lines(text@),
            body == all.skip(1),
            sp@ == " "@,
            conn_views(list@) == conn_items(body.take(i - 1)),
        decreases ls@.len() - i,
    {
        assert(body.take(i as int).drop_last() =~= body.take(i - 1));
        assert(body.take(i as int).last() == ls@[i as int]@);
        let w = words_of(&ls[i]);
        if w.len() >= 5 {
            let ghost wv = views(w@);
            assert(wv[0] == w@[0]@ && wv[1] == w@[1]@ && wv[2] == w@[2]@ && wv[3] == w@[3]@ && wv[4] == w@[4]@);
            let process = join_from(&w, 5, &sp);
            let c = Connection {
                state: string_of(&w[0]),
                recv_q: string_of(&w[1]),
                send_q: string_of(&w[2]),
                local: string_of(&w[3]),
                peer: string_of(&w[4]),
                process: string_of(&process),
            };
            let ghost before = conn_views(list@);
            list.push(c);
            assert(conn_views(list@) =~= before.push(conn_view(c)));
        }
        i = i + 1;
    }
    assert(body.take(ls@.len() - 1) =~= body);
    list
}

/// The DNS servers of a resolv.conf text: on each line that starts with
/// `nameserver` once trimmed, the rest of it, trimmed.
pub open spec fn nameservers(ls: Seq<Seq<char>>) -> Seq<Seq<char>>
    decreases ls.len(),
{
    if ls.len() == 0 {
        Seq::empty()
    } else {
        let r = nameservers(ls.drop_last());
        let t = trim(ls.last());
        if starts_with(t, "nameserver"@) {
            r.push(trim(t.skip(10)))
        } else {
            r
        }
    }
}

/// Reads the DNS servers of `/etc/resolv.conf`.
pub fn parse_nameservers(text: &str) -> (list: Vec<String>)
    ensures
        string_views(list@) == nameservers(lines(text@)),
{
    proof {
        reveal_strlit("nameserver");
    }
    let cv = chars_of(text);
    let ls = lines_of(&cv);
    let ghost all = views(ls@);
    let key = chars_of("nameserver");
    let mut list: Vec<String> = Vec::new();
    let mut i: usize = 0;
    assert(all.take(0) =~= Seq::<Seq<char>>::empty());
    assert(string_views(list@) =~= Seq::<Seq<char>>::empty());
    while i < ls.len()
        invariant
            i <= ls@.len(),
            all == views(ls@),
            all == lines(text@),
            key@ == "nameserver"@,
            key@.len() == 10,
            string_views(list@) == nameservers(all.take(i as int)),
        decreases ls@.len() - i,
    {
        assert(all.take(i + 1).drop_last() =~= all.take(i as int));
        assert(all.take(i + 1).last() == ls@[i as int]@);
        let t = trim_chars(&ls[i]);
        if has_prefix(&t, &key) {
            let rest = slice_chars(&t, 10, t.len());
            assert(rest@ =~= t@.skip(10));
            let ghost before = string_views(list@);
            let s = string_of(&trim_chars(&rest));
            list.push(s);
            assert(string_views(list@) =~= before.push(s@));
        }
        i = i + 1;
    }
    assert(all.take(ls@.len() as int) =~= all);
    list
}

} // verus!
