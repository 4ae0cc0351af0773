//! The store of the replies that the server has read, per client process id.

use std::collections::HashMap;
use vstd::prelude::*;
use crate::text::{decimal, lemma_decimal_reads_back, push_decimal, read_decimal};
use vstd::std_specs::iter::IteratorSpec;
use vstd::std_specs::hash::spec_hash_map_iter;

verus! {

/// The replies read so far, as lists of texts in the order they were read,
/// keyed by the process id of the client that sent them.
#[derive(Clone, Debug)]
pub struct Data {
    data: HashMap<u32, Vec<String>>,
}

/// The texts of a raw map from process id to replies.
pub open spec fn messages_view(m: Map<u32, Vec<String>>) -> Map<u32, Seq<Seq<char>>> {
    m.map_values(|v: Vec<String>| v.deep_view())
}

/// The replies of `pid`; none when it has no entry.
pub open spec fn messages_of(m: Map<u32, Seq<Seq<char>>>, pid: u32) -> Seq<Seq<char>> {
    if m.contains_key(pid) {
        m[pid]
    } else {
        Seq::<Seq<char>>::empty()
    }
}

/// The store after `msg` from `pid` is added behind the replies it already
/// holds for `pid`; an absent `pid` starts with an empty list.
pub open spec fn recorded(m: Map<u32, Seq<Seq<char>>>, pid: u32, msg: Seq<char>) -> Map<
    u32,
    Seq<Seq<char>>,
> {
    m.insert(pid, messages_of(m, pid).push(msg))
}

/// The store after `pid` is given an empty list if it had none.
pub open spec fn claimed(m: Map<u32, Seq<Seq<char>>>, pid: u32) -> Map<u32, Seq<Seq<char>>> {
    m.insert(pid, messages_of(m, pid))
}

/// Each reply in single quotes, each preceded by a space.
pub open spec fn quoted(msgs: Seq<Seq<char>>) -> Seq<char>
    decreases msgs.len(),
{
    if msgs.len() == 0 {
        Seq::<char>::empty()
    } else {
        quoted(msgs.drop_last()) + " '"@ + msgs.last() + "'"@
    }
}

/// The lines that show one client's replies.
pub open spec fn client_block(pid: u32, msgs: Seq<Seq<char>>) -> Seq<char> {
    "\nClient PID "@ + decimal(pid as nat) + ":"@ + quoted(msgs)
}

/// The blocks of the clients of `order`, in that order.
pub open spec fn render_in_order(m: Map<u32, Seq<Seq<char>>>, order: Seq<u32>) -> Seq<char>
    decreases order.len(),
{
    if order.len() == 0 {
        Seq::<char>::empty()
    } else {
        render_in_order(m, order.drop_last()) + client_block(
            order.last(),
            messages_of(m, order.last()),
        )
    }
}

/// `order` lists each client of the store exactly once.
pub open spec fn is_listing_of(order: Seq<u32>, m: Map<u32, Seq<Seq<char>>>) -> bool {
    &&& order.no_duplicates()
    &&& order.to_set() == m.dom()
}

impl View for Data {
    type V = Map<u32, Seq<Seq<char>>>;

    closed spec fn view(&self) -> Map<u32, Seq<Seq<char>>> {
        messages_view(self.data@)
    }
}

proof fn lemma_push_deep_view(before: Vec<String>, after: Vec<String>, s: String)
    requires
        after@ == before@.push(s),
    ensures
        after.deep_view() == before.deep_view().push(s@),
{
    assert(after.deep_view() =~= before.deep_view().push(s@));
}

proof fn lemma_entry_value(m: Map<u32, Vec<String>>, pid: u32, list: Vec<String>)
    requires
        m.contains_key(pid) ==> list == m[pid],
        !m.contains_key(pid) ==> list@ == Seq::<String>::empty(),
    ensures
        list.deep_view() == messages_of(messages_view(m), pid),
{
    if !m.contains_key(pid) {
        assert(list.deep_view() =~= Seq::<Seq<char>>::empty());
    }
}

impl Default for Data {
    /// An empty store.
    fn default() -> (d: Data)
        ensures
            d@ == Map::<u32, Seq<Seq<char>>>::empty(),
    {
        Data::new()
    }
}

impl Data {
    /// An empty store.
    pub fn new() -> (d: Data)
        ensures
            d@ == Map::<u32, Seq<Seq<char>>>::empty(),
    {
        let d = Data { data: HashMap::new() };
        assert(d@ =~= Map::<u32, Seq<Seq<char>>>::empty());
        d
    }

    /// The underlying map, for changes in place; what is done through it is
    /// what the store holds afterwards.
    pub fn get_mut(&mut self) -> (r: &mut HashMap<u32, Vec<String>>)
        ensures
            messages_view(r@) == old(self)@,
            final(self)@ == messages_view(final(r)@),
    {
        &mut self.data
    }

    /// Adds `msg`, read from `pid`, behind the replies already held for
    /// `pid`, starting an empty list when `pid` has none.
    pub fn record(&mut self, pid: u32, msg: String)
        ensures
            final(self)@ == recorded(old(self)@, pid, msg@),
    {
        let ghost before = self.data@;
        let e = self.data.entry(pid);
        let ghost eg = e;
        let list = e.or_insert(Vec::new());
        let ghost old_list = *list;
        list.push(msg);
        let ghost new_list = *list;
        proof {
            lemma_push_deep_view(old_list, new_list, msg);
            lemma_entry_value(before, pid, old_list);
        }
        assert(self.data@ == before.insert(pid, new_list));
        assert(messages_view(self.data@) =~= recorded(messages_view(before), pid, msg@));
    }

    /// A copy of the replies of `pid`, after giving `pid` an empty list if it
    /// had none.
    pub fn claim(&mut self, pid: u32) -> (msgs: Vec<String>)
        ensures
            msgs.deep_view() == messages_of(old(self)@, pid),
            final(self)@ == claimed(old(self)@, pid),
            forall|q: u32| messages_of(final(self)@, q) == messages_of(old(self)@, q),
            final(self)@.dom() == old(self)@.dom().insert(pid),
    {
        let ghost before = self.data@;
        let e = self.data.entry(pid);
        let list = e.or_insert(Vec::new());
        proof {
            lemma_entry_value(before, pid, *list);
        }
        let mut copy: Vec<String> = Vec::new();
        let n = list.len();
        let mut i: usize = 0;
        while i < n
            invariant
                n == list.len(),
                i <= n,
                copy.deep_view() == list.deep_view().subrange(0, i as int),
            decreases n - i,
        {
            let s = list[i].clone();
            let ghost copy_before = copy.deep_view();
            copy.push(s);
            assert(copy.deep_view() =~= copy_before.push(s@));
            i = i + 1;
            assert(copy.deep_view() =~= list.deep_view().subrange(0, i as int));
        }
        assert(copy.deep_view() =~= list.deep_view());
        assert(messages_view(self.data@) =~= claimed(messages_view(before), pid));
        proof {
            lemma_claim_keeps_every_list(messages_view(before), pid);
        }
        copy
    }

    /// Gives `pid` the list `msgs`, replacing what it had.
    pub fn insert(&mut self, pid: u32, msgs: Vec<String>)
        ensures
            final(self)@ == old(self)@.insert(pid, msgs.deep_view()),
    {
        let ghost before = self.data@;
        let ghost dv = msgs.deep_view();
        self.data.insert(pid, msgs);
        assert(messages_view(self.data@) =~= messages_view(before).insert(pid, dv));
    }

    /// The replies held for `pid`, if it has an entry.
    pub fn messages(&self, pid: u32) -> (r: Option<&Vec<String>>)
        ensures
            match r {
                Some(v) => self@.contains_key(pid) && v.deep_view() == self@[pid],
                None => !self@.contains_key(pid),
            },
    {
        self.data.get(&pid)
    }

    /// The number of clients with an entry.
    pub fn len(&self) -> (n: usize)
        ensures
            n == self@.len(),
    {
        assert(self@.dom() =~= self.data@.dom());
        self.data.len()
    }
}


/// The process ids of a sequence of map entries, in order.
pub open spec fn keys_of(pairs: Seq<(&u32, &Vec<String>)>) -> Seq<u32> {
    pairs.map_values(|p: (&u32, &Vec<String>)| *p.0)
}

fn push_str(s: &mut String, t: &str)
    ensures
        final(s)@ == old(s)@ + t@,
{
    s.append(t);
}

/// Appends the lines that show one client's replies.
fn push_client_block(s: &mut String, pid: u32, msgs: &Vec<String>)
    ensures
        final(s)@ == old(s)@ + client_block(pid, msgs.deep_view()),
{
    push_str(s, "\nClient PID ");
    push_decimal(s, pid);
    push_str(s, ":");
    let ghost head = s@;
    let n = msgs.len();
    let mut i: usize = 0;
    while i < n
        invariant
            n == msgs.len(),
            i <= n,
            s@ == head + quoted(msgs.deep_view().subrange(0, i as int)),
        decreases n - i,
    {
        push_str(s, " '");
        push_str(s, msgs[i].as_str());
        push_str(s, "'");
        let ghost sub = msgs.deep_view().subrange(0, i as int + 1);
        assert(sub.drop_last() =~= msgs.deep_view().subrange(0, i as int));
        i = i + 1;
        assert(s@ =~= head + quoted(msgs.deep_view().subrange(0, i as int)));
    }
    assert(msgs.deep_view().subrange(0, n as int) =~= msgs.deep_view());
    assert(s@ =~= old(s)@ + client_block(pid, msgs.deep_view()));
}

impl Data {
    /// The text that shows the store: for each client, in the order the map
    /// is walked, a line "Client PID <pid>:" started by a line break and
    /// followed by each of its replies in single quotes, each after a space.
    /// The walk order of the map is not fixed; the text lists each client
    /// exactly once.
    pub fn to_display_string(&self) -> (s: String)
        ensures
            exists|order: Seq<u32>|
                is_listing_of(order, self@) && s@ == render_in_order(self@, order),
    {
        let mut s = String::new();
        let ghost pairs = spec_hash_map_iter(&self.data).remaining();
        for entry in it: self.data.iter()
            invariant
                it.seq() == pairs,
                s@ == render_in_order(self@, keys_of(pairs.take(it.index()))),
        {
            let (pid, msgs) = entry;
            let ghost before = keys_of(pairs.take(it.index()));
            push_client_block(&mut s, *pid, msgs);
            assert(keys_of(pairs.take(it.index() + 1)).drop_last() =~= before);
        }
        assert(pairs.take(pairs.len() as int) =~= pairs);
        let ghost order = keys_of(pairs);
        proof {
            let m = self.data@;
            assert(pairs.no_duplicates());
            assert forall|i: int, j: int| 0 <= i < order.len() && 0 <= j < order.len() && i != j
                implies order[i] != order[j] by {
                assert(m.contains_key(*pairs[i].0) && m[*pairs[i].0] == *pairs[i].1);
                assert(m.contains_key(*pairs[j].0) && m[*pairs[j].0] == *pairs[j].1);
                if order[i] == order[j] {
                    assert(pairs[i] == pairs[j]);
                }
            }
            assert(self@.dom() =~= m.dom());
            assert forall|k: u32| order.to_set().contains(k) <==> self@.dom().contains(k) by {
                if order.to_set().contains(k) {
                    let i = choose|i: int| 0 <= i < order.len() && order[i] == k;
                    assert(m.contains_key(*pairs[i].0));
                }
                if m.contains_key(k) {
                    assert(pairs.contains((&k, &m[k])));
                    let i = choose|i: int| 0 <= i < pairs.len() && pairs[i] == (&k, &m[k]);
                    assert(order[i] == k);
                }
            }
            assert(order.to_set() =~= self@.dom());
        }
        assert(is_listing_of(order, self@));
        s
    }
}

/// The store after the replies `msgs` from `pid` are recorded one by one, in
/// order.
pub open spec fn recorded_all(m: Map<u32, Seq<Seq<char>>>, pid: u32, msgs: Seq<Seq<char>>) -> Map<
    u32,
    Seq<Seq<char>>,
>
    decreases msgs.len(),
{
    if msgs.len() == 0 {
        m
    } else {
        recorded(recorded_all(m, pid, msgs.drop_last()), pid, msgs.last())
    }
}

/// Replies from different clients do not interfere: recording one from `p`
/// and one from `q != p` gives the same store in either order.
pub proof fn lemma_record_commutes(
    m: Map<u32, Seq<Seq<char>>>,
    p: u32,
    a: Seq<char>,
    q: u32,
    b: Seq<char>,
)
    requires
        p != q,
    ensures
        recorded(recorded(m, p, a), q, b) == recorded(recorded(m, q, b), p, a),
{
    assert(recorded(recorded(m, p, a), q, b) =~= recorded(recorded(m, q, b), p, a));
}

/// Taking a copy of a client's list (giving it an empty one if needed),
/// adding a reply to the copy and putting the copy back leaves the store as
/// recording the reply directly does.
pub proof fn lemma_claim_then_insert_is_record(m: Map<u32, Seq<Seq<char>>>, p: u32, msg: Seq<char>)
    ensures
        claimed(m, p).insert(p, messages_of(m, p).push(msg)) == recorded(m, p, msg),
{
    assert(claimed(m, p).insert(p, messages_of(m, p).push(msg)) =~= recorded(m, p, msg));
}

/// Replies recorded one by one from a client are kept behind its earlier
/// ones, in the order they were recorded, and no other client's list
/// changes.
pub proof fn lemma_recorded_all(m: Map<u32, Seq<Seq<char>>>, p: u32, msgs: Seq<Seq<char>>)
    ensures
        messages_of(recorded_all(m, p, msgs), p) == messages_of(m, p) + msgs,
        forall|q: u32| q != p ==> messages_of(#[trigger] recorded_all(m, p, msgs), q) == messages_of(m, q),
        msgs.len() > 0 ==> recorded_all(m, p, msgs).dom() == m.dom().insert(p),
        msgs.len() == 0 ==> recorded_all(m, p, msgs) == m,
    decreases msgs.len(),
{
    if msgs.len() > 0 {
        lemma_recorded_all(m, p, msgs.drop_last());
        assert(messages_of(m, p) + msgs =~= (messages_of(m, p) + msgs.drop_last()).push(msgs.last()));
        assert(recorded_all(m, p, msgs).dom() =~= m.dom().insert(p));
    }
}

/// The text of an empty store is empty.
pub proof fn lemma_render_empty(order: Seq<u32>)
    requires
        is_listing_of(order, Map::<u32, Seq<Seq<char>>>::empty()),
    ensures
        render_in_order(Map::<u32, Seq<Seq<char>>>::empty(), order) == Seq::<char>::empty(),
{
    if order.len() > 0 {
        assert(order.to_set().contains(order[0]));
    }
}

/// The text of a store with one client is that client's block.
pub proof fn lemma_render_single(order: Seq<u32>, pid: u32, msgs: Seq<Seq<char>>)
    requires
        is_listing_of(order, map![pid => msgs]),
    ensures
        render_in_order(map![pid => msgs], order) == client_block(pid, msgs),
{
    let m = map![pid => msgs];
    assert(order.to_set().contains(pid));
    let i = choose|i: int| 0 <= i < order.len() && order[i] == pid;
    assert forall|j: int| 0 <= j < order.len() implies order[j] == pid by {
        assert(order.to_set().contains(order[j]));
    }
    if order.len() > 1 {
        assert(order[0] == order[1]);
    }
    assert(order.len() == 1);
    assert(order.drop_last() =~= Seq::<u32>::empty());
    assert(render_in_order(m, order.drop_last()) == Seq::<char>::empty());
    assert(m.contains_key(pid) && m[pid] == msgs);
    assert(messages_of(m, order.last()) == msgs);
    assert(Seq::<char>::empty() + client_block(pid, msgs) =~= client_block(pid, msgs));
}

/// Taking a copy of a client's list changes no client's replies: every
/// client, the taken one included, holds what it held; the taken client now
/// has an entry.
pub proof fn lemma_claim_keeps_every_list(m: Map<u32, Seq<Seq<char>>>, p: u32)
    ensures
        forall|q: u32| messages_of(claimed(m, p), q) == messages_of(m, q),
        claimed(m, p).dom() == m.dom().insert(p),
{
    assert(claimed(m, p).dom() =~= m.dom().insert(p));
}

/// A client's block names the client by digits '0' to '9' that read back as
/// its process id, without a leading zero unless the id is 0.
pub proof fn lemma_block_names_pid(pid: u32, msgs: Seq<Seq<char>>)
    ensures
        exists|digits: Seq<char>|
            #![trigger read_decimal(digits)]
            {
                &&& client_block(pid, msgs) == "\nClient PID "@ + digits + ":"@ + quoted(msgs)
                &&& read_decimal(digits) == pid
                &&& digits.len() >= 1
                &&& forall|i: int| 0 <= i < digits.len() ==> 48 <= (#[trigger] digits[i]) as u32 <= 57
                &&& pid > 0 ==> digits[0] as u32 != 48
            },
{
    lemma_decimal_reads_back(pid as nat);
    let digits = decimal(pid as nat);
    assert(read_decimal(digits) == pid);
}
} // verus!
