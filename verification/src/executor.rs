//! The executor: what each command does to the tables and what it replies.

use crate::addr::BeIpv4Addr;
use crate::addr::Ipv4Addr;
use crate::classifier::{endpoints, processed, Tables, Verdict};
use crate::control::{Command, CommandRequest};
use crate::table::Table;
use crate::text::{decimal, dotted, push_address, push_decimal};
use vstd::prelude::*;
use vstd::string::*;

verus! {

/// One line of a counter listing: address, tab, count, line feed.
pub open spec fn counter_line(key: BeIpv4Addr, count: u32) -> Seq<char> {
    dotted(key.spec_to_ip()) + seq!['\t'] + decimal(count as nat) + seq!['\n']
}

/// How a flag of the blocklist is written.
pub open spec fn flag_text(flag: bool) -> Seq<char> {
    if flag {
        "true"@
    } else {
        "false"@
    }
}

/// One line of a blocklist listing: address, tab, flag, line feed.
pub open spec fn flag_line(key: BeIpv4Addr, flag: bool) -> Seq<char> {
    dotted(key.spec_to_ip()) + seq!['\t'] + flag_text(flag) + seq!['\n']
}

/// The lines of the given counters, one after the other.
pub open spec fn counter_lines(entries: Seq<(BeIpv4Addr, u32)>) -> Seq<char>
    decreases entries.len(),
{
    if entries.len() == 0 {
        Seq::<char>::empty()
    } else {
        counter_lines(entries.drop_last()) + counter_line(entries.last().0, entries.last().1)
    }
}

/// The lines of the given flags, one after the other.
pub open spec fn flag_lines(entries: Seq<(BeIpv4Addr, bool)>) -> Seq<char>
    decreases entries.len(),
{
    if entries.len() == 0 {
        Seq::<char>::empty()
    } else {
        flag_lines(entries.drop_last()) + flag_line(entries.last().0, entries.last().1)
    }
}

/// The reply to a `block-src` that took effect.
pub open spec fn acknowledgment() -> Seq<char> {
    "ok\n"@
}

/// The reply to a `block-src` that found the blocklist full.
pub open spec fn refusal() -> Seq<char> {
    "blocklist is full\n"@
}

/// The reply to `command` when the tables are as given.
pub open spec fn reply_text(command: Command, tables: Tables) -> Seq<char> {
    match command {
        Command::ListSrcIps => counter_lines(tables.src_packets.listing()),
        Command::ListDstIps => counter_lines(tables.dst_packets.listing()),
        Command::ListBlockSrc => flag_lines(tables.src_block.listing()),
        Command::BlockSrc(ip) => if tables.src_block.admits(BeIpv4Addr::spec_from_ip(ip)) {
            acknowledgment()
        } else {
            refusal()
        },
    }
}

/// What `command` does to the tables: a listing changes nothing, and
/// `block-src` sets the flag of its address in the blocklist and leaves the
/// counters alone.
pub open spec fn applied(before: Tables, command: Command, after: Tables) -> bool {
    match command {
        Command::BlockSrc(ip) => {
            &&& after.src_packets == before.src_packets
            &&& after.dst_packets == before.dst_packets
            &&& before.src_block.stored(BeIpv4Addr::spec_from_ip(ip), true, after.src_block)
        },
        _ => after == before,
    }
}

/// Writes the counters of `table`, one line for each entry.
pub fn list_counters(table: &Table<u32>) -> (text: String)
    ensures
        text@ == counter_lines(table.listing()),
{
    proof {
        reveal_strlit("\t");
        reveal_strlit("\n");
    }
    let entries = table.entries();
    let mut text = String::new();
    let mut i: usize = 0;
    assert(entries@.take(0) =~= Seq::<(BeIpv4Addr, u32)>::empty());
    while i < entries.len()
        invariant
            i <= entries@.len(),
            text@ == counter_lines(entries@.take(i as int)),
            "\t"@ == seq!['\t'],
            "\n"@ == seq!['\n'],
        decreases entries@.len() - i,
    {
        let (key, count) = entries[i];
        let ghost before = text@;
        push_address(&mut text, key.to_ip());
        text.append("\t");
        push_decimal(&mut text, count);
        text.append("\n");
        proof {
            assert(entries@.take(i + 1).drop_last() =~= entries@.take(i as int));
            assert(text@ =~= before + counter_line(key, count));
        }
        i += 1;
    }
    assert(entries@.take(i as int) =~= entries@);
    text
}

/// Writes the flags of `table`, one line for each entry.
pub fn list_flags(table: &Table<bool>) -> (text: String)
    ensures
        text@ == flag_lines(table.listing()),
{
    proof {
        reveal_strlit("\t");
        reveal_strlit("\n");
    }
    let entries = table.entries();
    let mut text = String::new();
    let mut i: usize = 0;
    assert(entries@.take(0) =~= Seq::<(BeIpv4Addr, bool)>::empty());
    while i < entries.len()
        invariant
            i <= entries@.len(),
            text@ == flag_lines(entries@.take(i as int)),
            "\t"@ == seq!['\t'],
            "\n"@ == seq!['\n'],
        decreases entries@.len() - i,
    {
        let (key, flag) = entries[i];
        let ghost before = text@;
        push_address(&mut text, key.to_ip());
        text.append("\t");
        if flag {
            text.append("true");
        } else {
            text.append("false");
        }
        text.append("\n");
        proof {
            assert(entries@.take(i + 1).drop_last() =~= entries@.take(i as int));
            assert(text@ =~= before + flag_line(key, flag));
        }
        i += 1;
    }
    assert(entries@.take(i as int) =~= entries@);
    text
}

/// Carries out one command and gives its reply.
///
/// A listing writes one line for each entry of its table, in the order in
/// which the keys were first stored, and is empty for an empty table.
/// `block-src` replies `ok` where the address is blocked afterwards, and says
/// that the blocklist is full where it could not take the address.
pub fn execute(command: &Command, tables: &mut Tables) -> (reply: String)
    requires
        old(tables).has_defaults(),
    ensures
        applied(*old(tables), *command, *final(tables)),
        reply@ == reply_text(*command, *old(tables)),
        final(tables).has_defaults(),
{
    match command {
        Command::ListSrcIps => list_counters(&tables.src_packets),
        Command::ListDstIps => list_counters(&tables.dst_packets),
        Command::ListBlockSrc => list_flags(&tables.src_block),
        Command::BlockSrc(ip) => {
            let key = BeIpv4Addr::from(*ip);
            match tables.src_block.set(key, true) {
                Ok(()) => String::from_str("ok\n"),
                Err(_) => String::from_str("blocklist is full\n"),
            }
        },
    }
}

/// Hands `text` to the waiting client through `tokio`'s
/// `oneshot::Sender::send`. The channel either takes the text or, where
/// nobody waits for it any more, gives the same text back.
#[verifier::external_body]
fn send_reply(reply: tokio::sync::oneshot::Sender<String>, text: String) -> (undelivered: Result<
    (),
    String,
>)
    ensures
        undelivered matches Err(back) ==> back@ == text@,
{
    reply.send(text)
}

/// Serves one request: carries out its command and sends the reply on the
/// request's channel. Whether the reply is taken is up to the other end of
/// the channel; a reply that nobody waits for is handed back, and the command
/// has taken effect all the same.
pub fn serve(request: CommandRequest, tables: &mut Tables) -> (undelivered: Result<(), String>)
    requires
        old(tables).has_defaults(),
    ensures
        applied(*old(tables), request.command, *final(tables)),
        undelivered matches Err(back) ==> back@ == reply_text(request.command, *old(tables)),
        final(tables).has_defaults(),
{
    let text = execute(&request.command, tables);
    send_reply(request.reply, text)
}

/// The lines of two lists of flags, one after the other, are the lines of
/// the joined list.
pub proof fn lemma_flag_lines_join(first: Seq<(BeIpv4Addr, bool)>, second: Seq<(BeIpv4Addr, bool)>)
    ensures
        flag_lines(first + second) == flag_lines(first) + flag_lines(second),
    decreases second.len(),
{
    if second.len() == 0 {
        assert(first + second =~= first);
        assert(flag_lines(first) + flag_lines(second) =~= flag_lines(first));
    } else {
        lemma_flag_lines_join(first, second.drop_last());
        assert((first + second).drop_last() =~= first + second.drop_last());
        assert((first + second).last() == second.last());
        assert(flag_lines(first + second) =~= flag_lines(first) + flag_lines(second));
    }
}

/// A `block-src` that the blocklist took shows in the next listing of the
/// blocklist: the reply to `list-block-src` holds the line of the address
/// with the flag `true`.
pub proof fn lemma_block_is_listed(before: Tables, ip: Ipv4Addr, after: Tables)
    requires
        applied(before, Command::BlockSrc(ip), after),
        before.src_block.admits(BeIpv4Addr::spec_from_ip(ip)),
        after.src_block.well_formed(),
    ensures
        exists|head: Seq<char>, tail: Seq<char>|
            reply_text(Command::ListBlockSrc, after) == head + flag_line(
                BeIpv4Addr::spec_from_ip(ip),
                true,
            ) + tail,
{
    let key = BeIpv4Addr::spec_from_ip(ip);
    let table = after.src_block;
    table.lemma_keys();
    assert(table@.contains_key(key));
    let j = table.order().index_of(key);
    let listing = table.listing();
    assert(listing[j] == (key, true));
    let first = listing.take(j);
    let second = seq![listing[j]];
    let third = listing.skip(j + 1);
    assert(listing =~= first + second + third);
    lemma_flag_lines_join(first + second, third);
    lemma_flag_lines_join(first, second);
    assert(second.drop_last() =~= Seq::<(BeIpv4Addr, bool)>::empty());
    assert(flag_lines(second.drop_last()) =~= Seq::<char>::empty());
    assert(flag_lines(second) =~= flag_line(key, true));
    assert(reply_text(Command::ListBlockSrc, after) == flag_lines(first) + flag_line(key, true)
        + flag_lines(third));
}

/// A packet from an address is dropped once the blocklist has taken a
/// `block-src` for that address.
pub proof fn lemma_block_then_drop(
    before: Tables,
    ip: Ipv4Addr,
    blocked: Tables,
    packet: Seq<u8>,
    after: Tables,
    verdict: Verdict,
)
    requires
        applied(before, Command::BlockSrc(ip), blocked),
        before.src_block.admits(BeIpv4Addr::spec_from_ip(ip)),
        processed(blocked, packet, after, verdict),
        endpoints(packet) is Some,
        endpoints(packet).unwrap().0 == BeIpv4Addr::spec_from_ip(ip),
    ensures
        verdict == Verdict::Drop,
{
}

/// Commands take effect in the order in which they are carried out. Of two
/// `block-src` commands for one address, the second finds the entry that the
/// first has made: where the first was taken, the second is taken too, even
/// by a blocklist that has become full, and it leaves the blocklist as the
/// first left it.
pub proof fn lemma_commands_in_order(
    before: Tables,
    ip: Ipv4Addr,
    between: Tables,
    after: Tables,
)
    requires
        applied(before, Command::BlockSrc(ip), between),
        applied(between, Command::BlockSrc(ip), after),
        before.src_block.admits(BeIpv4Addr::spec_from_ip(ip)),
    ensures
        reply_text(Command::BlockSrc(ip), between) == acknowledgment(),
        after.src_block@ == between.src_block@,
        after.src_block.order() == between.src_block.order(),
        after.src_block.spec_get(BeIpv4Addr::spec_from_ip(ip)) == true,
        after.src_packets == before.src_packets,
        after.dst_packets == before.dst_packets,
{
    let key = BeIpv4Addr::spec_from_ip(ip);
    assert(between.src_block@.contains_key(key));
    assert(after.src_block@ =~= between.src_block@);
}

} // verus!
