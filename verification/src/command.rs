//! The command line that starts a client: the configured command, trimmed
//! and cut at each space, with the client's id as the last argument.

use vstd::prelude::*;
use crate::text::{
    chars_of, is_ascii_graphic, is_white_space, join, lemma_trim_keeps_graphic_ends, split, string_of,
    trim, trim_end, trim_start, white_space,
};

verus! {

/// A program to start and the arguments to give it.
pub struct ClientCommand {
    pub program: String,
    pub args: Vec<String>,
}

/// The pieces of a configured command: trimmed, then cut at each space.
pub open spec fn command_pieces(command: Seq<char>) -> Seq<Seq<char>> {
    split(trim(command), ' ')
}

proof fn lemma_trim_start_step(s: Seq<char>, i: int)
    requires
        0 <= i < s.len(),
        is_white_space(s[i]),
    ensures
        trim_start(s.subrange(i, s.len() as int)) == trim_start(s.subrange(i + 1, s.len() as int)),
{
    let t = s.subrange(i, s.len() as int);
    assert(t.drop_first() =~= s.subrange(i + 1, s.len() as int));
}

proof fn lemma_trim_end_step(s: Seq<char>, from: int, j: int)
    requires
        0 <= from < j <= s.len(),
        is_white_space(s[j - 1]),
    ensures
        trim_end(s.subrange(from, j)) == trim_end(s.subrange(from, j - 1)),
{
    let t = s.subrange(from, j);
    assert(t.drop_last() =~= s.subrange(from, j - 1));
}

/// `split` always yields at least one piece.
pub proof fn lemma_split_nonempty(s: Seq<char>, sep: char)
    ensures
        split(s, sep).len() >= 1,
    decreases s.len(),
{
    if s.len() > 0 {
        lemma_split_nonempty(s.drop_last(), sep);
    }
}

/// Cutting a text at each `sep` and joining the pieces with `sep` gives the
/// text back.
pub proof fn lemma_join_split(s: Seq<char>, sep: char)
    ensures
        join(split(s, sep), sep) == s,
    decreases s.len(),
{
    if s.len() > 0 {
        let s0 = s.drop_last();
        lemma_join_split(s0, sep);
        lemma_split_nonempty(s0, sep);
        let init = split(s0, sep);
        if s.last() == sep {
            let p = init.push(Seq::<char>::empty());
            assert(p.drop_last() =~= init);
            assert(join(p, sep) =~= s);
        } else {
            let x = init.last().push(s.last());
            let p = init.update(init.len() - 1, x);
            assert(s =~= s0.push(s.last()));
            if init.len() == 1 {
                assert(p.len() == 1 && p[0] == x);
                assert(join(p, sep) =~= s);
            } else {
                assert(p.drop_last() =~= init.drop_last());
                assert(join(p, sep) =~= s);
            }
        }
    }
}

/// The configured command's program, followed by its arguments, joined with
/// single spaces, gives back the trimmed command.
pub proof fn lemma_command_pieces_rejoin(command: Seq<char>)
    ensures
        command_pieces(command).len() >= 1,
        join(command_pieces(command), ' ') == trim(command),
{
    lemma_split_nonempty(trim(command), ' ');
    lemma_join_split(trim(command), ' ');
}

/// Cuts the characters `cs[start..end]` at each space.
fn split_spaces(cs: &Vec<char>, start: usize, end: usize) -> (pieces: Vec<String>)
    requires
        start <= end <= cs.len(),
    ensures
        pieces.deep_view() == split(cs@.subrange(start as int, end as int), ' '),
{
    let mut done: Vec<String> = Vec::new();
    let mut piece_start = start;
    let mut i = start;
    assert(cs@.subrange(start as int, start as int) =~= Seq::<char>::empty());
    assert(done.deep_view() =~= Seq::<Seq<char>>::empty());
    while i < end
        invariant
            start <= piece_start <= i <= end <= cs.len(),
            split(cs@.subrange(start as int, i as int), ' ') == done.deep_view().push(
                cs@.subrange(piece_start as int, i as int),
            ),
        decreases end - i,
    {
        let ghost before = split(cs@.subrange(start as int, i as int), ' ');
        let ghost sub = cs@.subrange(start as int, i as int + 1);
        assert(sub.drop_last() =~= cs@.subrange(start as int, i as int));
        if cs[i] == ' ' {
            let piece = string_of(cs, piece_start, i);
            let ghost done_before = done.deep_view();
            assert(sub.last() == ' ');
            done.push(piece);
            assert(done.deep_view() =~= done_before.push(cs@.subrange(piece_start as int, i as int)));
            piece_start = i + 1;
            assert(cs@.subrange(piece_start as int, i as int + 1) =~= Seq::<char>::empty());
            assert(split(sub, ' ') =~= done.deep_view().push(
                cs@.subrange(piece_start as int, i as int + 1),
            ));
        } else {
            assert(sub.last() == cs@[i as int]);
            assert(before == done.deep_view().push(cs@.subrange(piece_start as int, i as int)));
            assert(split(sub, ' ') == before.update(before.len() - 1, before.last().push(cs@[i as int])));
            assert(cs@.subrange(piece_start as int, i as int).push(cs@[i as int]) =~= cs@.subrange(
                piece_start as int,
                i as int + 1,
            ));
            assert(split(sub, ' ') =~= done.deep_view().push(
                cs@.subrange(piece_start as int, i as int + 1),
            ));
        }
        i = i + 1;
    }
    let last = string_of(cs, piece_start, end);
    done.push(last);
    assert(done.deep_view() =~= split(cs@.subrange(start as int, end as int), ' '));
    done
}

/// The program and the arguments that start the client `client` with the
/// configured `command`: the command is trimmed and cut at each space; the
/// first piece is the program, the others are the first arguments, and the
/// client's id is the last argument.
pub fn parse_client_command(command: &str, client: &str) -> (c: ClientCommand)
    ensures
        command_pieces(command@).len() >= 1,
        c.program@ == command_pieces(command@)[0],
        c.args.deep_view() == command_pieces(command@).drop_first().push(client@),
{
    let cs = chars_of(command);
    let len = cs.len();
    let mut start: usize = 0;
    assert(cs@.subrange(0, len as int) =~= cs@);
    while start < len && white_space(cs[start])
        invariant
            len == cs.len(),
            start <= len,
            trim_start(cs@) == trim_start(cs@.subrange(start as int, len as int)),
        decreases len - start,
    {
        proof {
            lemma_trim_start_step(cs@, start as int);
        }
        start = start + 1;
    }
    proof {
        assert(cs@.subrange(0, len as int) =~= cs@);
        let t = cs@.subrange(start as int, len as int);
        if start < len {
            assert(t[0] == cs@[start as int]);
        }
        assert(trim_start(cs@) == t);
    }
    let mut end: usize = len;
    while end > start && white_space(cs[end - 1])
        invariant
            len == cs.len(),
            start <= end <= len,
            trim_start(cs@) == cs@.subrange(start as int, len as int),
            trim(cs@) == trim_end(cs@.subrange(start as int, end as int)),
        decreases end - start,
    {
        proof {
            lemma_trim_end_step(cs@, start as int, end as int);
        }
        end = end - 1;
    }
    proof {
        let t = cs@.subrange(start as int, end as int);
        if start < end {
            assert(t.last() == cs@[end - 1]);
        }
        assert(trim(cs@) == t);
    }
    let mut pieces = split_spaces(&cs, start, end);
    proof {
        lemma_split_nonempty(trim(cs@), ' ');
    }
    let ghost all = pieces.deep_view();
    let program = pieces.remove(0);
    assert(pieces.deep_view() =~= all.drop_first());
    let id = client.to_owned();
    pieces.push(id);
    assert(pieces.deep_view() =~= all.drop_first().push(client@));
    ClientCommand { program, args: pieces }
}


/// A text without the separator is one piece.
pub proof fn lemma_split_without_separator(s: Seq<char>, sep: char)
    requires
        !s.contains(sep),
    ensures
        split(s, sep) == seq![s],
    decreases s.len(),
{
    if s.len() > 0 {
        let s0 = s.drop_last();
        assert forall|i: int| 0 <= i < s0.len() implies s0[i] != sep by {
            assert(s[i] == s0[i]);
        }
        lemma_split_without_separator(s0, sep);
        assert(s.last() == s[s.len() - 1]);
        assert(s.last() != sep);
        assert(s0.push(s.last()) =~= s);
        assert(split(s, sep) =~= seq![s]);
    } else {
        assert(s =~= Seq::<char>::empty());
    }
}

/// A configured command made of one word that begins and ends with a
/// printable character, such as a path to the client program, is started
/// as it is: it is the whole program, and the client's id is the only
/// argument.
pub proof fn lemma_single_word_command(command: Seq<char>)
    requires
        command.len() > 0,
        is_ascii_graphic(command[0]),
        is_ascii_graphic(command.last()),
        !command.contains(' '),
    ensures
        command_pieces(command) == seq![command],
        command_pieces(command)[0] == command,
        command_pieces(command).drop_first() == Seq::<Seq<char>>::empty(),
{
    lemma_trim_keeps_graphic_ends(command);
    lemma_split_without_separator(command, ' ');
    assert(command_pieces(command).drop_first() =~= Seq::<Seq<char>>::empty());
}
} // verus!
