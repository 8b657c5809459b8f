//! A one-line description of the machine, for explanations that fit it. Every part of it
//! may be unknown.

use crate::signals::wmi::{at_colon, line_is_split_at_its_first_colon, split_at_colon};
use crate::text::{
    after_prefix, chars_of, contains, decimal, decimal_text, eq_ignore_ascii_case, find_chars, join,
    joined, lines, lines_of, lossy_utf16, occurs_at, opt_view, parse_nat, parsed_nat, push_text,
    same, same_ignoring_ascii_case, single_spaced, string_range, strip_text_prefix, trim, trimmed,
    utf16_lossy, views, what_follows_a_prefix, with_single_spaces, written_number_reads_back,
};
use vstd::prelude::*;
use vstd::string::*;

verus! {

/// What is known of the machine.
#[derive(Debug)]
pub struct MachineProfile {
    pub product: Option<String>,
    pub display_version: Option<String>,
    pub build: Option<String>,
    pub ubr: Option<u32>,
    pub manufacturer: Option<String>,
    pub model: Option<String>,
    pub cpu: Option<String>,
    /// The memory in whole gigabytes, as it is shown.
    pub ram_gb: Option<String>,
}

/// Whether a build is one of Windows 11, which still calls itself Windows 10.
pub open spec fn is_eleven(build: Option<Seq<char>>) -> bool {
    match build {
        Some(b) => match parsed_nat(b, u32::MAX as int) {
            Some(n) => n >= 22_000,
            None => false,
        },
        None => false,
    }
}

/// A text with the first `from` in it replaced by `to`.
pub open spec fn replaced_once(s: Seq<char>, from: Seq<char>, to: Seq<char>) -> Seq<char> {
    if contains(s, from) {
        let i = first_at(s, from);
        s.take(i) + to + s.skip(i + from.len())
    } else {
        s
    }
}

/// The first position at which a text stands in another that contains it.
pub open spec fn first_at(s: Seq<char>, needle: Seq<char>) -> int {
    choose|i: int|
        occurs_at(s, needle, i) && forall|k: int|
            0 <= k < i ==> !#[trigger] occurs_at(s, needle, k)
}

/// The system: its name, its version and its build, as far as they are known.
pub open spec fn system_text(p: MachineProfile, product: Seq<char>) -> Seq<char> {
    let name = if is_eleven(opt_view(p.build)) {
        replaced_once(product, "Windows 10"@, "Windows 11"@)
    } else {
        product
    };
    let versioned = match p.display_version {
        Some(v) => name + " "@ + v@,
        None => name,
    };
    match (p.build, p.ubr) {
        (Some(b), Some(u)) => versioned + " (build "@ + b@ + "."@ + decimal(u as nat) + ")"@,
        (Some(b), None) => versioned + " (build "@ + b@ + ")"@,
        _ => versioned,
    }
}

/// A name where it is known and is no placeholder.
pub open spec fn named(s: Option<String>) -> Seq<Seq<char>> {
    match s {
        Some(name) if !same_ignoring_ascii_case(name@, "System Product Name"@) => seq![name@],
        _ => Seq::empty(),
    }
}

/// The device: its maker and its model.
pub open spec fn device_text(p: MachineProfile) -> Seq<char> {
    join(named(p.manufacturer) + named(p.model), " "@)
}

/// The parts of the description, in order.
pub open spec fn profile_parts(p: MachineProfile) -> Seq<Seq<char>> {
    let system = match p.product {
        Some(product) => seq![system_text(p, product@)],
        None => Seq::empty(),
    };
    let device = if device_text(p).len() > 0 {
        seq![device_text(p)]
    } else {
        Seq::empty()
    };
    let cpu = match p.cpu {
        Some(cpu) => seq![single_spaced(cpu@)],
        None => Seq::empty(),
    };
    let ram = match p.ram_gb {
        Some(gb) => seq![gb@ + " GB RAM"@],
        None => Seq::empty(),
    };
    system + device + cpu + ram
}

fn replace_once(s: &str, from: &str, to: &str) -> (r: String)
    ensures
        r@ == replaced_once(s@, from@, to@),
{
    let v = chars_of(s);
    let n = chars_of(from);
    match find_chars(&v, &n) {
        Some(i) => {
            proof {
                assert(occurs_at(s@, from@, i as int));
                let j = first_at(s@, from@);
                assert(occurs_at(s@, from@, j) && forall|k: int|
                    0 <= k < j ==> !#[trigger] occurs_at(s@, from@, k));
                assert(j == i) by {
                    if j < i {
                        assert(!occurs_at(v@, n@, j));
                    }
                    if i < j {
                        assert(!occurs_at(s@, from@, i as int));
                    }
                }
            }
            let len: usize = v.len();
            assert(i + n@.len() <= len);
            let before = string_range(&v, 0, i);
            let after = string_range(&v, i + n.len(), v.len());
            assert(before@ =~= s@.take(i as int));
            assert(after@ =~= s@.skip(i + from@.len()));
            let mut r = before;
            r.append(to);
            r.append(after.as_str());
            r
        },
        None => s.to_owned(),
    }
}

fn system_of(p: &MachineProfile, product: &str) -> (r: String)
    ensures
        r@ == system_text(*p, product@),
{
    let eleven = match &p.build {
        Some(b) => match parse_nat(b.as_str(), u32::MAX as u64) {
            Some(n) => n >= 22_000,
            None => false,
        },
        None => false,
    };
    let mut os = if eleven {
        replace_once(product, "Windows 10", "Windows 11")
    } else {
        product.to_owned()
    };
    if let Some(v) = &p.display_version {
        os.append(" ");
        os.append(v.as_str());
    }
    if let Some(b) = &p.build {
        os.append(" (build ");
        os.append(b.as_str());
        if let Some(u) = p.ubr {
            os.append(".");
            let number = decimal_text(u as u64);
            os.append(number.as_str());
        }
        os.append(")");
    }
    os
}

fn push_named(names: &mut Vec<String>, name: &Option<String>)
    ensures
        views(final(names)@) == views(old(names)@) + named(*name),
{
    if let Some(text) = name {
        if !eq_ignore_ascii_case(text.as_str(), "System Product Name") {
            push_text(names, text.as_str());
        }
    }
    assert(views(names@) =~= views(old(names)@) + named(*name));
}

/// The profile as one line, or none where nothing is known.
pub fn describe(p: &MachineProfile) -> (r: Option<String>)
    ensures
        opt_view(r) == (if profile_parts(*p).len() > 0 {
            Some(join(profile_parts(*p), ", "@))
        } else {
            None
        }),
{
    let mut parts: Vec<String> = Vec::new();
    assert(views(parts@) =~= Seq::<Seq<char>>::empty());
    if let Some(product) = &p.product {
        let os = system_of(p, product.as_str());
        push_text(&mut parts, os.as_str());
    }
    let mut names: Vec<String> = Vec::new();
    assert(views(names@) =~= Seq::<Seq<char>>::empty());
    push_named(&mut names, &p.manufacturer);
    push_named(&mut names, &p.model);
    assert(views(names@) =~= named(p.manufacturer) + named(p.model));
    let device = joined(&names, " ");
    if !device.as_str().is_empty() {
        push_text(&mut parts, device.as_str());
    }
    if let Some(cpu) = &p.cpu {
        let text = with_single_spaces(cpu.as_str());
        push_text(&mut parts, text.as_str());
    }
    if let Some(gb) = &p.ram_gb {
        let mut text = gb.clone();
        text.append(" GB RAM");
        push_text(&mut parts, text.as_str());
    }
    assert(views(parts@) =~= profile_parts(*p));
    assert(views(parts@).len() == parts@.len());
    if parts.len() == 0 {
        None
    } else {
        Some(joined(&parts, ", "))
    }
}

// ── Files of the system ───────────────────────────────────────────────────────

/// A text without the quotes at its ends.
pub open spec fn without_quotes(s: Seq<char>) -> Seq<char>
    decreases s.len(),
{
    if s.len() > 0 && s[0] == '"' {
        without_quotes(s.skip(1))
    } else if s.len() > 0 && s.last() == '"' {
        without_quotes(s.drop_last())
    } else {
        s
    }
}

/// The value that a line of the form `key=value` gives for a key, where it gives one.
pub open spec fn line_value(line: Seq<char>, key: Seq<char>) -> Option<Seq<char>> {
    match after_prefix(line, key + "="@) {
        Some(rest) => {
            let value = without_quotes(trim(rest));
            if value.len() > 0 {
                Some(value)
            } else {
                None
            }
        },
        None => None,
    }
}

/// The first value that some lines give for a key.
pub open spec fn first_value(ls: Seq<Seq<char>>, key: Seq<char>) -> Option<Seq<char>>
    decreases ls.len(),
{
    if ls.len() == 0 {
        None
    } else if line_value(ls[0], key) is Some {
        line_value(ls[0], key)
    } else {
        first_value(ls.skip(1), key)
    }
}

fn strip_quotes(s: &str) -> (r: String)
    ensures
        r@ == without_quotes(s@),
{
    let v = chars_of(s);
    let mut from: usize = 0;
    let mut to: usize = v.len();
    assert(s@.subrange(0, to as int) =~= s@);
    while from < to && (v[from] == '"' || v[to - 1] == '"')
        invariant
            from <= to <= v@.len(),
            v@ == s@,
            without_quotes(s@) == without_quotes(s@.subrange(from as int, to as int)),
        ensures
            from <= to <= v@.len(),
            without_quotes(s@) == s@.subrange(from as int, to as int),
        decreases to - from,
    {
        let ghost now = s@.subrange(from as int, to as int);
        if v[from] == '"' {
            assert(now.skip(1) =~= s@.subrange(from + 1, to as int));
            from += 1;
        } else {
            assert(now.drop_last() =~= s@.subrange(from as int, to - 1));
            to -= 1;
        }
    }
    string_range(&v, from, to)
}

/// The value of a key in the system's release file.
pub fn os_release_value(contents: &str, key: &str) -> (r: Option<String>)
    ensures
        opt_view(r) == first_value(lines(contents@), key@),
{
    let ls = lines_of(contents);
    let ghost all = lines(contents@);
    let mut prefix = key.to_owned();
    prefix.append("=");
    let mut i: usize = 0;
    assert(all.skip(0) =~= all);
    while i < ls.len()
        invariant
            i <= ls@.len(),
            all == views(ls@),
            prefix@ == key@ + "="@,
            all == lines(contents@),
            first_value(all, key@) == first_value(all.skip(i as int), key@),
        decreases ls@.len() - i,
    {
        assert(all.skip(i as int)[0] == ls@[i as int]@);
        if let Some(rest) = strip_text_prefix(ls[i].as_str(), prefix.as_str()) {
            let body = trimmed(rest.as_str());
            let value = strip_quotes(body.as_str());
            if !value.as_str().is_empty() {
                return Some(value);
            }
        }
        assert(all.skip(i as int).skip(1) =~= all.skip(i + 1));
        i += 1;
    }
    None
}

/// The system's name: its pretty one, else the plain one.
pub fn os_description(contents: &str) -> (r: Option<String>)
    ensures
        opt_view(r) == (match first_value(lines(contents@), "PRETTY_NAME"@) {
            Some(name) => Some(name),
            None => first_value(lines(contents@), "NAME"@),
        }),
{
    match os_release_value(contents, "PRETTY_NAME") {
        Some(name) => Some(name),
        None => os_release_value(contents, "NAME"),
    }
}

/// The value of a firmware field, unless it is blank or the placeholder of its maker.
pub fn dmi_field(contents: &str) -> (r: Option<String>)
    ensures
        opt_view(r) == ({
            let value = trim(contents@);
            if value.len() > 0 && !same_ignoring_ascii_case(value, "to be filled by o.e.m."@) {
                Some(value)
            } else {
                None
            }
        }),
{
    let value = trimmed(contents);
    if value.as_str().is_empty() || eq_ignore_ascii_case(value.as_str(), "to be filled by o.e.m.") {
        None
    } else {
        Some(value)
    }
}

/// The model that a line gives of the processor, where it gives one.
pub open spec fn line_model(line: Seq<char>) -> Option<Seq<char>> {
    match at_colon(line) {
        Some((key, value)) => if trim(key) == "model name"@ && trim(value).len() > 0 {
            Some(trim(value))
        } else {
            None
        },
        None => None,
    }
}

/// The first model that some lines give.
pub open spec fn first_model(ls: Seq<Seq<char>>) -> Option<Seq<char>>
    decreases ls.len(),
{
    if ls.len() == 0 {
        None
    } else if line_model(ls[0]) is Some {
        line_model(ls[0])
    } else {
        first_model(ls.skip(1))
    }
}

/// The model of the processor.
pub fn parse_cpu_model(cpuinfo: &str) -> (r: Option<String>)
    ensures
        opt_view(r) == first_model(lines(cpuinfo@)),
{
    let ls = lines_of(cpuinfo);
    let ghost all = lines(cpuinfo@);
    let mut i: usize = 0;
    assert(all.skip(0) =~= all);
    while i < ls.len()
        invariant
            i <= ls@.len(),
            all == views(ls@),
            all == lines(cpuinfo@),
            first_model(all) == first_model(all.skip(i as int)),
        decreases ls@.len() - i,
    {
        assert(all.skip(i as int)[0] == ls@[i as int]@);
        if let Some((key, value)) = split_at_colon(ls[i].as_str()) {
            let key = trimmed(key.as_str());
            if same(key.as_str(), "model name") {
                let value = trimmed(value.as_str());
                if !value.as_str().is_empty() {
                    return Some(value);
                }
            }
        }
        assert(all.skip(i as int).skip(1) =~= all.skip(i + 1));
        i += 1;
    }
    None
}

// ── The registry ──────────────────────────────────────────────────────────────

/// A text without the zeros at its end.
pub open spec fn without_zeros(s: Seq<char>) -> Seq<char>
    decreases s.len(),
{
    if s.len() > 0 && s.last() == '\0' {
        without_zeros(s.drop_last())
    } else {
        s
    }
}

fn strip_zeros(s: &str) -> (r: String)
    ensures
        r@ == without_zeros(s@),
{
    let v = chars_of(s);
    let mut end: usize = v.len();
    assert(s@.take(end as int) =~= s@);
    while end > 0 && v[end - 1] == '\0'
        invariant
            end <= v@.len(),
            v@ == s@,
            without_zeros(s@) == without_zeros(s@.take(end as int)),
        ensures
            end <= v@.len(),
            without_zeros(s@) == without_zeros(s@.take(end as int)),
            end > 0 ==> s@[end - 1] != '\0',
        decreases end,
    {
        assert(s@.take(end as int).drop_last() =~= s@.take(end - 1));
        end -= 1;
    }
    assert(s@.take(end as int) =~= s@.subrange(0, end as int));
    string_range(&v, 0, end)
}

/// The units that the registry filled in, by the bytes that it says it wrote: none beyond
/// the buffer.
pub open spec fn filled_units(units: Seq<u16>, bytes: int) -> Seq<u16> {
    if bytes / 2 < units.len() {
        units.take(bytes / 2)
    } else {
        units
    }
}

/// A text of the registry, from the buffer that it was read into and the bytes that were
/// written there: without the zeros at its end and the white space around it, and none where
/// nothing is left.
pub fn registry_text(buffer: Vec<u16>, bytes: usize) -> (r: Option<String>)
    ensures
        ({
            let text = trim(without_zeros(utf16_lossy(filled_units(buffer@, bytes as int))));
            opt_view(r) == (if text.len() > 0 {
                Some(text)
            } else {
                None
            })
        }),
{
    let mut units = buffer;
    let count: usize = bytes / 2;
    if count < units.len() {
        units.truncate(count);
    }
    assert(units@ =~= filled_units(buffer@, bytes as int));
    let text = lossy_utf16(units.as_slice());
    let body = trimmed(strip_zeros(text.as_str()).as_str());
    if body.as_str().is_empty() {
        None
    } else {
        Some(body)
    }
}

// ── What the description says ─────────────────────────────────────────────────

/// A build is one of Windows 11 from number 22000 on.
pub proof fn builds_are_told_by_their_number(n: nat)
    ensures
        n <= u32::MAX ==> is_eleven(Some(decimal(n))) == (n >= 22_000),
        !is_eleven(None),
{
    written_number_reads_back(n, 0, u32::MAX as int, Seq::empty());
}

/// What is replaced is the first text that is searched for, and nothing else.
pub proof fn first_one_is_replaced(
    before: Seq<char>,
    from: Seq<char>,
    after: Seq<char>,
    to: Seq<char>,
    plain: Seq<char>,
)
    requires
        forall|k: int|
            0 <= k < before.len() ==> !#[trigger] occurs_at(before + from + after, from, k),
        !contains(plain, from),
    ensures
        replaced_once(before + from + after, from, to) == before + to + after,
        replaced_once(plain, from, to) == plain,
{
    let s = before + from + after;
    let n = before.len() as int;
    assert(s.subrange(n, n + from.len()) =~= from);
    assert(occurs_at(s, from, n));
    let i = first_at(s, from);
    assert(i == n);
    assert(s.take(n) =~= before);
    assert(s.skip(n + from.len()) =~= after);
}

/// The system is told by its name, then its version and its build, each where it is known.
pub proof fn system_says_what_is_known(p: MachineProfile, product: Seq<char>)
    requires
        !is_eleven(opt_view(p.build)),
    ensures
        p.display_version is None && p.build is None ==> system_text(p, product) == product,
        p.display_version matches Some(v) ==> (p.build is None ==> system_text(p, product)
            == product + " "@ + v@),
        p.build matches Some(b) ==> (p.ubr is None && p.display_version is None ==> system_text(
            p,
            product,
        ) == product + " (build "@ + b@ + ")"@),
        p.build matches Some(b) ==> (p.ubr matches Some(u) ==> (p.display_version matches Some(v)
            ==> system_text(p, product) == product + " "@ + v@ + " (build "@ + b@ + "."@ + decimal(
            u as nat,
        ) + ")"@)),
        product.is_prefix_of(system_text(p, product)),
{
    let s = system_text(p, product);
    assert(s.take(product.len() as int) =~= product);
}

/// A Windows 11 that calls itself Windows 10 is told by its right name.
pub proof fn eleven_is_told_by_its_name(p: MachineProfile, product: Seq<char>)
    ensures
        is_eleven(opt_view(p.build)) ==> replaced_once(product, "Windows 10"@, "Windows 11"@)
            .is_prefix_of(system_text(p, product)),
{
    let name = replaced_once(product, "Windows 10"@, "Windows 11"@);
    if is_eleven(opt_view(p.build)) {
        assert(system_text(p, product).take(name.len() as int) =~= name);
    }
}

/// The device is its maker and its model, as far as they are known and are no placeholders.
pub proof fn device_is_maker_and_model(p: MachineProfile)
    ensures
        p.manufacturer is None && p.model is None ==> device_text(p).len() == 0,
        p.manufacturer matches Some(a) ==> (!same_ignoring_ascii_case(a@, "System Product Name"@)
            && p.model is None ==> device_text(p) == a@),
        p.manufacturer matches Some(a) ==> (p.model matches Some(b) ==> (
        !same_ignoring_ascii_case(a@, "System Product Name"@) && !same_ignoring_ascii_case(
            b@,
            "System Product Name"@,
        ) ==> device_text(p) == a@ + " "@ + b@)),
        p.manufacturer matches Some(a) ==> (p.model matches Some(b) ==> (
        !same_ignoring_ascii_case(a@, "System Product Name"@) && same_ignoring_ascii_case(
            b@,
            "System Product Name"@,
        ) ==> device_text(p) == a@)),
        p.model matches Some(b) ==> (p.manufacturer is None && !same_ignoring_ascii_case(
            b@,
            "System Product Name"@,
        ) ==> device_text(p) == b@),
{
    let names = named(p.manufacturer) + named(p.model);
    reveal_with_fuel(join, 3);
    if names.len() == 1 {
        assert(names.drop_last() =~= Seq::<Seq<char>>::empty());
    } else if names.len() == 2 {
        assert(names.drop_last() =~= named(p.manufacturer));
        assert(names.drop_last().drop_last() =~= Seq::<Seq<char>>::empty());
    }
}

/// The description holds a part for the system, the device, the processor and the memory, in that
/// order, each where it is known, and no other part.
pub proof fn description_holds_what_is_known(p: MachineProfile)
    ensures
        ({
            let parts = profile_parts(p);
            let d = device_text(p);
            &&& p.product matches Some(name) ==> parts.len() > 0 && parts[0] == system_text(p, name@)
            &&& d.len() > 0 ==> parts.contains(d)
            &&& p.cpu matches Some(cpu) ==> parts.contains(single_spaced(cpu@))
            &&& p.ram_gb matches Some(gb) ==> parts.len() > 0 && parts.last() == gb@ + " GB RAM"@
            &&& p.product is None && d.len() > 0 ==> parts[0] == d
            &&& p.product is None && p.cpu is None && p.ram_gb is None && d.len() == 0
                ==> parts.len() == 0
            &&& p.product is None && d.len() == 0 && p.ram_gb is None ==> (p.cpu matches Some(cpu)
                ==> parts == seq![single_spaced(cpu@)])
        }),
{
    let parts = profile_parts(p);
    let d = device_text(p);
    let at: int = if p.product is Some {
        1
    } else {
        0
    };
    if d.len() > 0 {
        assert(parts[at] == d);
    }
    if p.cpu is Some {
        let n: int = at + (if d.len() > 0 {
            1int
        } else {
            0int
        });
        assert(parts[n] == single_spaced(p.cpu->0@));
    }
}

/// Only quotes are taken off, at the ends, and none is left there.
pub proof fn only_quotes_are_taken_off(s: Seq<char>) -> (r: (int, int))
    ensures
        0 <= r.0 <= r.1 <= s.len(),
        without_quotes(s) == s.subrange(r.0, r.1),
        forall|k: int| 0 <= k < r.0 ==> #[trigger] s[k] == '"',
        forall|k: int| r.1 <= k < s.len() ==> #[trigger] s[k] == '"',
        r.0 < r.1 ==> s[r.0] != '"' && s[r.1 - 1] != '"',
    decreases s.len(),
{
    if s.len() > 0 && s[0] == '"' {
        let (i, j) = only_quotes_are_taken_off(s.skip(1));
        assert(s.skip(1).subrange(i, j) =~= s.subrange(i + 1, j + 1));
        assert forall|k: int| 0 <= k < i + 1 implies #[trigger] s[k] == '"' by {
            if k > 0 {
                assert(s.skip(1)[k - 1] == s[k]);
            }
        }
        assert forall|k: int| j + 1 <= k < s.len() implies #[trigger] s[k] == '"' by {
            assert(s.skip(1)[k - 1] == s[k]);
        }
        (i + 1, j + 1)
    } else if s.len() > 0 && s.last() == '"' {
        let (i, j) = only_quotes_are_taken_off(s.drop_last());
        assert(s.drop_last().subrange(i, j) =~= s.subrange(i, j));
        assert forall|k: int| 0 <= k < i implies #[trigger] s[k] == '"' by {
            assert(s.drop_last()[k] == s[k]);
        }
        assert forall|k: int| j <= k < s.len() implies #[trigger] s[k] == '"' by {
            if k < s.len() - 1 {
                assert(s.drop_last()[k] == s[k]);
            }
        }
        (i, j)
    } else {
        assert(s.subrange(0, s.len() as int) =~= s);
        (0, s.len() as int)
    }
}

/// A value is what follows its key, without quotes and white space, where something is left; the
/// first line that gives one is taken.
pub proof fn first_value_of_the_key_is_taken(
    ls: Seq<Seq<char>>,
    key: Seq<char>,
    i: int,
    rest: Seq<char>,
)
    requires
        0 <= i < ls.len(),
        ls[i] == key + "="@ + rest,
        without_quotes(trim(rest)).len() > 0,
        forall|k: int| 0 <= k < i ==> !(key + "="@).is_prefix_of(#[trigger] ls[k]),
    ensures
        first_value(ls, key) == Some(without_quotes(trim(rest))),
    decreases i,
{
    what_follows_a_prefix(key + "="@, rest, ls[0]);
    if i > 0 {
        assert(!(key + "="@).is_prefix_of(ls[0]));
        let tail = ls.skip(1);
        assert forall|k: int| 0 <= k < i - 1 implies !(key + "="@).is_prefix_of(
            #[trigger] tail[k],
        ) by {
            assert(tail[k] == ls[k + 1]);
        }
        first_value_of_the_key_is_taken(tail, key, i - 1, rest);
    }
}

/// Where no line starts with a key, it has no value.
pub proof fn absent_key_has_no_value(ls: Seq<Seq<char>>, key: Seq<char>)
    requires
        forall|k: int| 0 <= k < ls.len() ==> !(key + "="@).is_prefix_of(#[trigger] ls[k]),
    ensures
        first_value(ls, key) is None,
    decreases ls.len(),
{
    if ls.len() > 0 {
        assert(!(key + "="@).is_prefix_of(ls[0]));
        what_follows_a_prefix(key + "="@, Seq::empty(), ls[0]);
        let tail = ls.skip(1);
        assert forall|k: int| 0 <= k < tail.len() implies !(key + "="@).is_prefix_of(
            #[trigger] tail[k],
        ) by {
            assert(tail[k] == ls[k + 1]);
        }
        absent_key_has_no_value(tail, key);
    }
}

/// The processor's model is what the first line gives whose name before the colon is that of the
/// model and which gives one.
pub proof fn first_model_is_taken(ls: Seq<Seq<char>>, i: int, key: Seq<char>, value: Seq<char>)
    requires
        0 <= i < ls.len(),
        ls[i] == key + seq![':'] + value,
        forall|k: int| 0 <= k < key.len() ==> key[k] != ':',
        trim(key) == "model name"@,
        trim(value).len() > 0,
        forall|k: int| 0 <= k < i ==> line_model(#[trigger] ls[k]) is None,
    ensures
        first_model(ls) == Some(trim(value)),
    decreases i,
{
    if i > 0 {
        assert(line_model(ls[0]) is None);
        let tail = ls.skip(1);
        assert forall|k: int| 0 <= k < i - 1 implies line_model(#[trigger] tail[k]) is None by {
            assert(tail[k] == ls[k + 1]);
        }
        first_model_is_taken(tail, i - 1, key, value);
    } else {
        line_is_split_at_its_first_colon(key, value, Seq::empty());
    }
}

/// A line under another name gives no model.
pub proof fn other_lines_give_no_model(key: Seq<char>, value: Seq<char>)
    requires
        forall|k: int| 0 <= k < key.len() ==> key[k] != ':',
        trim(key) != "model name"@,
    ensures
        line_model(key + seq![':'] + value) is None,
{
    line_is_split_at_its_first_colon(key, value, Seq::empty());
}

/// Only zeros are taken off the end, and none is left there.
pub proof fn only_zeros_are_taken_off(s: Seq<char>)
    ensures
        without_zeros(s).is_prefix_of(s),
        forall|k: int| without_zeros(s).len() <= k < s.len() ==> #[trigger] s[k] == '\0',
        without_zeros(s).len() > 0 ==> without_zeros(s).last() != '\0',
    decreases s.len(),
{
    if s.len() > 0 && s.last() == '\0' {
        only_zeros_are_taken_off(s.drop_last());
        assert forall|k: int| without_zeros(s).len() <= k < s.len() implies #[trigger] s[k]
            == '\0' by {
            if k < s.len() - 1 {
                assert(s.drop_last()[k] == s[k]);
            }
        }
    }
}

/// The units that were filled in are those of the bytes that were written, two to each, and no
/// more than there are.
pub proof fn filled_units_are_of_the_written_bytes(units: Seq<u16>, n: nat)
    ensures
        n <= units.len() ==> filled_units(units, (2 * n) as int) == units.take(n as int),
        n <= units.len() ==> filled_units(units, (2 * n + 1) as int) == units.take(n as int),
        n > units.len() ==> filled_units(units, (2 * n) as int) == units,
{
    assert((2 * n) / 2 == n && (2 * n + 1) / 2 == n);
    if n == units.len() {
        assert(units.take(n as int) =~= units);
    }
}

/// The system is told by its pretty name, else by the plain one; a firmware field counts unless it
/// is blank or a placeholder; and the description is all parts that are known, or none.
pub proof fn names_of_the_machine_are_read(
    contents: &str,
    os: Option<String>,
    field: Option<String>,
    p: &MachineProfile,
    line: Option<String>,
)
    requires
        call_ensures(os_description, (contents,), os),
        call_ensures(dmi_field, (contents,), field),
        call_ensures(describe, (p,), line),
    ensures
        first_value(lines(contents@), "PRETTY_NAME"@) is Some ==> opt_view(os) == first_value(
            lines(contents@),
            "PRETTY_NAME"@,
        ),
        first_value(lines(contents@), "PRETTY_NAME"@) is None ==> opt_view(os) == first_value(
            lines(contents@),
            "NAME"@,
        ),
        field is Some <==> trim(contents@).len() > 0 && !same_ignoring_ascii_case(
            trim(contents@),
            "to be filled by o.e.m."@,
        ),
        field is Some ==> field->0@ == trim(contents@),
        line is None <==> profile_parts(*p).len() == 0,
        line is Some ==> line->0@ == join(profile_parts(*p), ", "@),
{
}

} // verus!
