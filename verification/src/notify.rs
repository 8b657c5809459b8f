//! The optional alert hook: which alerts go out, and the command line that they go out by.
//! It is off unless a command is configured.

use crate::text::{copy_list, same};
use vstd::prelude::*;
use vstd::string::*;
use vstd::utf8::*;

verus! {

/// Re-alert window: a fault that keeps recurring does not alert again for four hours. In
/// nanoseconds of a monotonic clock.
pub const DEDUP_TTL: u64 = 4 * 60 * 60 * 1_000_000_000;

/// The SHA-256 digest of some bytes, in lower-case hexadecimal.
pub uninterp spec fn sha256_hex(bytes: Seq<u8>) -> Seq<char>;

/// `sha2::Sha256::digest` hashes the bytes, and `LowerHex` writes the digest down. Which
/// digest it is is left to it.
#[verifier::external_body]
fn hex_digest(bytes: &[u8]) -> (r: String)
    ensures
        r@ == sha256_hex(bytes@),
{
    format!("{:x}", <sha2::Sha256 as sha2::Digest>::digest(bytes))
}

/// What identifies an alert.
pub open spec fn alert_text(
    severity: Seq<char>,
    source: Seq<char>,
    message: Seq<char>,
) -> Seq<char> {
    severity + ":"@ + source + ":"@ + message
}

/// What identifies an alert, before it is hashed.
pub fn alert_identity(severity: &str, source: &str, message: &str) -> (r: String)
    ensures
        r@ == alert_text(severity@, source@, message@),
{
    let mut text = severity.to_owned();
    text.append(":");
    text.append(source);
    text.append(":");
    text.append(message);
    text
}

/// The key that an alert is remembered by.
pub fn dedup_key(severity: &str, source: &str, message: &str) -> (r: String)
    ensures
        r@ == sha256_hex(encode_utf8(alert_text(severity@, source@, message@))),
{
    let text = alert_identity(severity, source, message);
    hex_digest(text.as_str().as_bytes())
}

/// The alerts of the last hours, each with when it went out.
pub struct RecentlySent {
    pub entries: Vec<(String, u64)>,
}

/// One remembered alert: its key, and when it went out.
pub type SentModel = (Seq<char>, u64);

/// Whether an alert sent at `at` still counts at `now`.
pub open spec fn still_fresh(at: u64, now: u64) -> bool {
    now - at < DEDUP_TTL
}

/// The remembered alerts that still count, in order.
pub open spec fn fresh(entries: Seq<SentModel>, now: u64) -> Seq<SentModel>
    decreases entries.len(),
{
    if entries.len() == 0 {
        Seq::empty()
    } else if still_fresh(entries.last().1, now) {
        fresh(entries.drop_last(), now).push(entries.last())
    } else {
        fresh(entries.drop_last(), now)
    }
}

/// Whether an alert is among the remembered ones.
pub open spec fn remembered(entries: Seq<SentModel>, key: Seq<char>) -> bool {
    exists|i: int| 0 <= i < entries.len() && (#[trigger] entries[i]).0 == key
}

impl View for RecentlySent {
    type V = Seq<SentModel>;

    open spec fn view(&self) -> Seq<SentModel> {
        self.entries@.map_values(|e: (String, u64)| (e.0@, e.1))
    }
}

impl RecentlySent {
    /// Nothing sent yet.
    pub fn new() -> (r: RecentlySent)
        ensures
            r@ == Seq::<SentModel>::empty(),
    {
        let r = RecentlySent { entries: Vec::new() };
        assert(r@ =~= Seq::<SentModel>::empty());
        r
    }

    /// True if this alert went out within the window. What is older is forgotten, and an
    /// alert that has not gone out is remembered as going out now.
    pub fn already_sent_recently(&mut self, key: &str, now: u64) -> (r: bool)
        ensures
            r == remembered(fresh(old(self)@, now), key@),
            final(self)@ == (if r {
                fresh(old(self)@, now)
            } else {
                fresh(old(self)@, now).push((key@, now))
            }),
    {
        let ghost all = self@;
        let mut kept: Vec<(String, u64)> = Vec::new();
        let mut found = false;
        let mut i: usize = 0;
        let ghost mut model: Seq<SentModel> = Seq::empty();
        assert(all.take(0) =~= Seq::<SentModel>::empty());
        while i < self.entries.len()
            invariant
                i <= self.entries@.len(),
                all == self@,
                model == fresh(all.take(i as int), now),
                model == kept@.map_values(|e: (String, u64)| (e.0@, e.1)),
                found == remembered(model, key@),
            decreases self.entries@.len() - i,
        {
            let ghost next = all.take(i + 1);
            assert(next.drop_last() =~= all.take(i as int));
            assert(next.last() == (self.entries@[i as int].0@, self.entries@[i as int].1));
            let at: u64 = self.entries[i].1;
            if at > now || now - at < DEDUP_TTL {
                let k = self.entries[i].0.clone();
                if same(k.as_str(), key) {
                    found = true;
                }
                let ghost before = model;
                proof {
                    model = before.push((k@, at));
                    if remembered(before, key@) {
                        let j = choose|j: int|
                            0 <= j < before.len() && (#[trigger] before[j]).0 == key@;
                        assert(model[j].0 == key@);
                    }
                    assert(model[before.len() as int].0 == k@);
                    if remembered(model, key@) && k@ != key@ {
                        let j = choose|j: int|
                            0 <= j < model.len() && (#[trigger] model[j]).0 == key@;
                        assert(before[j].0 == key@);
                    }
                }
                kept.push((k, at));
                assert(model =~= kept@.map_values(|e: (String, u64)| (e.0@, e.1)));
            }
            i += 1;
        }
        assert(all.take(all.len() as int) =~= all);
        if !found {
            kept.push((key.to_owned(), now));
        }
        self.entries = kept;
        assert(self@ =~= if found {
            model
        } else {
            model.push((key@, now))
        });
        found
    }
}

/// A command to run: the program, and its arguments.
pub struct CommandLine {
    pub program: String,
    pub args: Vec<String>,
}

/// The command line of an alert: the configured command, with the message as one more
/// argument at its end.
pub open spec fn alert_command(command: Seq<String>, line: CommandLine, message: Seq<char>) -> bool {
    &&& line.program == command[0]
    &&& line.args@.len() == command.len()
    &&& line.args@.drop_last() == command.skip(1)
    &&& line.args@.last()@ == message
}

/// The command line of a configured hook for a message.
pub fn command_for(command: &Vec<String>, message: &str) -> (r: Option<CommandLine>)
    ensures
        r is Some <==> command@.len() > 0,
        r is Some ==> alert_command(command@, r->0, message@),
{
    if command.len() == 0 {
        return None;
    }
    let program = command[0].clone();
    let mut args = copy_list(command);
    let _ = args.remove(0);
    args.push(message.to_owned());
    assert(args@.drop_last() =~= command@.skip(1));
    Some(CommandLine { program, args })
}

/// The command to run for an alert, if it is to go out: none where the hook is off or the
/// same alert went out within the window.
pub fn plan_send(
    command: &Vec<String>,
    sent: &mut RecentlySent,
    severity: &str,
    source: &str,
    message: &str,
    now: u64,
) -> (r: Option<CommandLine>)
    ensures
        ({
            let key = sha256_hex(encode_utf8(alert_text(severity@, source@, message@)));
            let recent = fresh(old(sent)@, now);
            &&& r is Some <==> command@.len() > 0 && !remembered(recent, key)
            &&& r is Some ==> alert_command(command@, r->0, message@)
            &&& final(sent)@ == (if command@.len() == 0 {
                old(sent)@
            } else if remembered(recent, key) {
                recent
            } else {
                recent.push((key, now))
            })
        }),
{
    let line = command_for(command, message);
    if line.is_none() {
        return None;
    }
    let key = dedup_key(severity, source, message);
    if sent.already_sent_recently(key.as_str(), now) {
        return None;
    }
    line
}

proof fn lemma_fresh_keeps(entries: Seq<SentModel>, now: u64, i: int)
    requires
        0 <= i < entries.len(),
        still_fresh(entries[i].1, now),
    ensures
        remembered(fresh(entries, now), entries[i].0),
    decreases entries.len(),
{
    if i == entries.len() - 1 {
        let f = fresh(entries, now);
        assert(f[f.len() - 1].0 == entries[i].0);
    } else {
        lemma_fresh_keeps(entries.drop_last(), now, i);
        assert(entries.drop_last()[i] == entries[i]);
        let before = fresh(entries.drop_last(), now);
        let j = choose|j: int|
            0 <= j < before.len() && (#[trigger] before[j]).0 == entries[i].0;
        assert(fresh(entries, now)[j].0 == entries[i].0);
    }
}

proof fn lemma_fresh_only(entries: Seq<SentModel>, now: u64, i: int) -> (k: int)
    requires
        0 <= i < fresh(entries, now).len(),
    ensures
        0 <= k < entries.len(),
        entries[k] == fresh(entries, now)[i],
        still_fresh(entries[k].1, now),
    decreases entries.len(),
{
    let before = fresh(entries.drop_last(), now);
    if i < before.len() {
        lemma_fresh_only(entries.drop_last(), now, i)
    } else {
        entries.len() - 1
    }
}

/// What was forgotten at one time does not count at a later one.
proof fn lemma_fresh_twice(entries: Seq<SentModel>, now: u64, later: u64)
    requires
        now <= later,
    ensures
        fresh(fresh(entries, now), later) == fresh(entries, later),
    decreases entries.len(),
{
    if entries.len() > 0 {
        lemma_fresh_twice(entries.drop_last(), now, later);
        if still_fresh(entries.last().1, now) {
            let kept = fresh(entries.drop_last(), now);
            assert(kept.push(entries.last()).drop_last() =~= kept);
        }
    }
}

/// What is remembered after some alerts were asked for, each at its time.
pub open spec fn memory_after(asked: Seq<SentModel>) -> Seq<SentModel>
    decreases asked.len(),
{
    if asked.len() == 0 {
        Seq::empty()
    } else {
        let recent = fresh(memory_after(asked.drop_last()), asked.last().1);
        if remembered(recent, asked.last().0) {
            recent
        } else {
            recent.push(asked.last())
        }
    }
}

/// The alerts that went out of those that were asked for, in order.
pub open spec fn went_out(asked: Seq<SentModel>) -> Seq<SentModel>
    decreases asked.len(),
{
    if asked.len() == 0 {
        Seq::empty()
    } else {
        let before = went_out(asked.drop_last());
        if remembered(fresh(memory_after(asked.drop_last()), asked.last().1), asked.last().0) {
            before
        } else {
            before.push(asked.last())
        }
    }
}

/// Whether no alert was asked for before the one ahead of it.
pub open spec fn in_time_order(asked: Seq<SentModel>) -> bool {
    forall|i: int, j: int|
        0 <= i <= j < asked.len() ==> (#[trigger] asked[i]).1 <= (#[trigger] asked[j]).1
}

proof fn lemma_memory_is_what_went_out(asked: Seq<SentModel>, now: u64)
    requires
        in_time_order(asked),
        asked.len() > 0 ==> asked.last().1 <= now,
    ensures
        fresh(memory_after(asked), now) == fresh(went_out(asked), now),
    decreases asked.len(),
{
    if asked.len() > 0 {
        let before = asked.drop_last();
        let last = asked.last();
        assert forall|i: int, j: int| 0 <= i <= j < before.len() implies (#[trigger] before[i]).1
            <= (#[trigger] before[j]).1 by {
            assert(asked[i].1 <= asked[j].1);
        }
        if before.len() > 0 {
            assert(asked[before.len() - 1].1 <= asked[asked.len() - 1].1);
        }
        lemma_memory_is_what_went_out(before, now);
        lemma_fresh_twice(memory_after(before), last.1, now);
        let recent = fresh(memory_after(before), last.1);
        assert(recent.push(last).drop_last() =~= recent);
        assert(went_out(before).push(last).drop_last() =~= went_out(before));
    }
}

/// However often an alert is asked for, it goes out once in a window: it is held back exactly
/// where the same alert went out less than a window ago, whatever was asked for in between.
/// Being held back does not lengthen the window.
pub proof fn alert_goes_out_once_in_a_window(asked: Seq<SentModel>, key: Seq<char>, now: u64)
    requires
        in_time_order(asked),
        asked.len() > 0 ==> asked.last().1 <= now,
    ensures
        remembered(fresh(memory_after(asked), now), key) <==> exists|i: int|
            0 <= i < went_out(asked).len() && (#[trigger] went_out(asked)[i]).0 == key
                && still_fresh(went_out(asked)[i].1, now),
{
    lemma_memory_is_what_went_out(asked, now);
    let out = went_out(asked);
    let kept = fresh(out, now);
    if remembered(kept, key) {
        let i = choose|i: int| 0 <= i < kept.len() && (#[trigger] kept[i]).0 == key;
        let k = lemma_fresh_only(out, now, i);
        assert(went_out(asked)[k].0 == key && still_fresh(went_out(asked)[k].1, now));
    }
    if exists|i: int|
        0 <= i < out.len() && (#[trigger] out[i]).0 == key && still_fresh(out[i].1, now) {
        let i = choose|i: int|
            0 <= i < out.len() && (#[trigger] out[i]).0 == key && still_fresh(out[i].1, now);
        lemma_fresh_keeps(out, now, i);
    }
}

/// An alert that went out is held back until the window is over.
pub proof fn repeat_within_the_window_is_held_back(
    before: Seq<SentModel>,
    key: Seq<char>,
    sent_at: u64,
    now: u64,
)
    requires
        still_fresh(sent_at, now),
    ensures
        remembered(fresh(before.push((key, sent_at)), now), key),
{
    lemma_fresh_keeps(before.push((key, sent_at)), now, before.len() as int);
}

/// The alerts that still count are those of the last four hours, all of them and in order.
pub proof fn alerts_count_for_four_hours(entries: Seq<SentModel>, now: u64)
    ensures
        fresh(entries, now) == entries.filter(|e: SentModel| now - e.1 < 14_400_000_000_000),
    decreases entries.len(),
{
    reveal(Seq::filter);
    if entries.len() > 0 {
        alerts_count_for_four_hours(entries.drop_last(), now);
    }
}

/// Two alerts with one severity and one source are told apart by their messages, and two with one
/// source and one message by their severities.
pub proof fn alerts_are_told_apart(
    severity: Seq<char>,
    other: Seq<char>,
    source: Seq<char>,
    a: Seq<char>,
    b: Seq<char>,
)
    ensures
        alert_text(severity, source, a) == alert_text(severity, source, b) ==> a == b,
        alert_text(severity, source, a) == alert_text(other, source, a) ==> severity == other,
        alert_text(severity, a, source) == alert_text(severity, b, source) ==> a == b,
{
    let x = alert_text(severity, source, a);
    let n = (severity + ":"@ + source + ":"@).len() as int;
    assert(x.skip(n) =~= a);
    assert(alert_text(severity, source, b).skip(n) =~= b);
    let m = severity.len() as int;
    if alert_text(severity, source, a) == alert_text(other, source, a) {
        assert(x.len() == alert_text(other, source, a).len());
        assert(x.take(m) =~= severity);
        assert(alert_text(other, source, a).take(m) =~= other);
    }
    if alert_text(severity, a, source) == alert_text(severity, b, source) {
        let y = alert_text(severity, a, source);
        let z = alert_text(severity, b, source);
        assert(y.len() == z.len());
        let from = (severity + ":"@).len() as int;
        assert(y.subrange(from, from + a.len()) =~= a);
        assert(z.subrange(from, from + b.len()) =~= b);
    }
}

/// An alert is sent once in its time: the first is, and is remembered; the same one is not while
/// it is remembered. Without a command nothing is sent or remembered.
pub proof fn alert_is_sent_once_in_its_time(
    command: &Vec<String>,
    sent: &mut RecentlySent,
    severity: &str,
    source: &str,
    message: &str,
    now: u64,
    r: Option<CommandLine>,
)
    requires
        call_ensures(plan_send, (command, sent, severity, source, message, now), r),
    ensures
        command@.len() == 0 ==> r is None && final(sent)@ == old(sent)@,
        command@.len() > 0 ==> ({
            let key = sha256_hex(encode_utf8(alert_text(severity@, source@, message@)));
            &&& r is Some <==> !remembered(fresh(old(sent)@, now), key)
            &&& r is Some ==> final(sent)@.last() == (key, now)
            &&& r is None ==> final(sent)@ == fresh(old(sent)@, now)
        }),
{
}

/// An alert runs the configured program with its arguments, the message behind them.
pub proof fn alert_runs_the_configured_program(
    command: &Vec<String>,
    message: &str,
    r: Option<CommandLine>,
    i: int,
)
    requires
        call_ensures(command_for, (command, message), r),
    ensures
        r is Some <==> command@.len() > 0,
        r matches Some(line) ==> {
            &&& line.program == command@[0]
            &&& line.args@.len() == command@.len()
            &&& line.args@.last()@ == message@
            &&& 0 < i < command@.len() ==> line.args@[i - 1] == command@[i]
        },
{
    if r is Some && 0 < i < command@.len() {
        let args = r->0.args@;
        assert(args.drop_last()[i - 1] == command@.skip(1)[i - 1]);
    }
}

} // verus!
