//! The texts that travel between the server and its clients.

use vstd::prelude::*;

verus! {

fn push_str(s: &mut String, t: &str)
    ensures
        final(s)@ == old(s)@ + t@,
{
    s.append(t);
}

/// The server's message to one client: the client's tag, a colon and a
/// space, then the message.
pub fn tagged_message(tag: &str, msg: &str) -> (s: String)
    ensures
        s@ == tag@ + ": "@ + msg@,
{
    let mut s = tag.to_owned();
    push_str(&mut s, ": ");
    push_str(&mut s, msg);
    s
}

/// A client's answer to the line it read from the server, ended by a line
/// break.
pub fn client_reply(id: &str, line: &str) -> (s: String)
    ensures
        s@ == "Client "@ + id@ + " got "@ + line@ + "\n"@,
{
    let mut s = "Client ".to_owned();
    push_str(&mut s, id);
    push_str(&mut s, " got ");
    push_str(&mut s, line);
    push_str(&mut s, "\n");
    s
}

/// The path of the local socket named `name`.
pub fn socket_path(name: &str) -> (s: String)
    ensures
        s@ == "/tmp/socket/"@ + name@,
{
    let mut s = "/tmp/socket/".to_owned();
    push_str(&mut s, name);
    s
}

} // verus!
