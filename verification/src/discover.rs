//! Finding other devices that wait for files, and telling whether the other side is
//! this program or any other TFTP server. The packets start with a letter, so they have
//! an operation code that TFTP does not know and other servers ignore them.
use crate::outside;
use crate::peer::Ip;
use crate::sort;
use crate::sort::SortKey;
use crate::text;
use crate::wait::{IoKind, MIN_WAIT};
use vstd::prelude::*;
use vstd::slice::slice_subrange;
use vstd::utf8::*;

verus! {

/// The question who is there.
pub const DISCOVER_MAGIC: &'static str = "TFTP-DISCOVER";

/// How the answer starts; the name of the computer follows.
pub const HERE_MAGIC: &'static str = "TFTP-HERE";

/// So often another side is asked whether it is this program.
pub const PROBE_TRIES: u32 = 3;

/// So long an answer to that is waited for.
pub const PROBE_WAIT: u64 = 500_000_000;

/// Whether a packet asks who is there.
pub open spec fn asks(p: Seq<u8>) -> bool {
    text::begins(p, encode_utf8(DISCOVER_MAGIC@))
}

/// Whether a packet answers that someone is there.
pub open spec fn answers(p: Seq<u8>) -> bool {
    text::begins(p, encode_utf8(HERE_MAGIC@))
}

/// The answer of a computer of this name.
pub open spec fn here(name: Seq<char>) -> Seq<u8> {
    encode_utf8(HERE_MAGIC@) + encode_utf8(name)
}

/// Whether a packet asks who is there.
pub fn is_question(p: &[u8]) -> (r: bool)
    ensures
        r == asks(p@),
{
    text::bytes_begin(p, DISCOVER_MAGIC.as_bytes())
}

/// Whether a packet answers that someone is there.
pub fn is_answer(p: &[u8]) -> (r: bool)
    ensures
        r == answers(p@),
{
    text::bytes_begin(p, HERE_MAGIC.as_bytes())
}

/// The answer of a computer of this name.
pub fn hello(name: &str) -> (r: Vec<u8>)
    ensures
        r@ == here(name@),
{
    let mut v: Vec<u8> = Vec::new();
    text::push_bytes(&mut v, HERE_MAGIC.as_bytes());
    text::push_bytes(&mut v, name.as_bytes());
    assert(v@ =~= here(name@));
    v
}

/// The first name that is known, trimmed; no name if none is.
pub open spec fn first_name(
    a: Option<Seq<char>>,
    b: Option<Seq<char>>,
    c: Option<Seq<char>>,
) -> Seq<char> {
    match (a, b, c) {
        (Some(s), _, _) => text::trimmed(s),
        (None, Some(s), _) => text::trimmed(s),
        (None, None, Some(s)) => text::trimmed(s),
        _ => Seq::empty(),
    }
}

/// The characters of an optional text.
pub open spec fn text_view(s: Option<String>) -> Option<Seq<char>> {
    match s {
        Some(t) => Some(t@),
        None => None,
    }
}

/// The name of this computer: from the environment, under either of two names, else from
/// the file that holds it.
pub fn host_name(
    computer_name: Option<String>,
    hostname: Option<String>,
    file: Option<String>,
) -> (r: String)
    ensures
        r@ == first_name(text_view(computer_name), text_view(hostname), text_view(file)),
{
    match computer_name {
        Some(s) => text::trim_text(s.as_str()),
        None => match hostname {
            Some(s) => text::trim_text(s.as_str()),
            None => match file {
                Some(s) => text::trim_text(s.as_str()),
                None => String::new(),
            },
        },
    }
}

// ---------------------------------------------------------------- interfaces
/// A network interface.
#[derive(Debug)]
pub struct Interface {
    pub name: String,
    pub ip: Ip,
    pub loopback: bool,
    /// Its broadcast address, where it has one.
    pub broadcast: Option<u32>,
}

/// Name and address of an interface that others can reach: not loopback, IPv4.
pub open spec fn reachable(v: Seq<Interface>) -> Seq<(Seq<char>, Ip)>
    decreases v.len(),
{
    if v.len() == 0 {
        Seq::empty()
    } else {
        let i = v.last();
        let rest = reachable(v.drop_last());
        if !i.loopback && i.ip is V4 {
            rest.push((i.name@, i.ip))
        } else {
            rest
        }
    }
}

/// Names and addresses.
pub open spec fn name_ip_view(v: Seq<(String, Ip)>) -> Seq<(Seq<char>, Ip)> {
    v.map_values(|p: (String, Ip)| (p.0@, p.1))
}

/// Names and addresses of the interfaces that others can reach.
pub fn local_ips(found: &Vec<Interface>) -> (r: Vec<(String, Ip)>)
    ensures
        name_ip_view(r@) == reachable(found@),
{
    let mut out: Vec<(String, Ip)> = Vec::new();
    let mut i: usize = 0;
    assert(name_ip_view(out@) =~= Seq::empty());
    while i < found.len()
        invariant
            i <= found.len(),
            name_ip_view(out@) == reachable(found@.take(i as int)),
        decreases found.len() - i,
    {
        let f = &found[i];
        let ghost before = out@;
        assert(found@.take(i + 1).drop_last() =~= found@.take(i as int));
        if !f.loopback && f.ip.is_ipv4() {
            let name = f.name.clone();
            out.push((name, f.ip));
            assert(name_ip_view(out@) =~= name_ip_view(before).push((f.name@, f.ip)));
        }
        i = i + 1;
    }
    assert(found@.take(i as int) =~= found@);
    out
}

/// This computer itself: 127.0.0.1.
pub const LOCALHOST: u32 = 0x7f00_0001;

/// Everyone on the local network: 255.255.255.255.
pub const BROADCAST: u32 = 0xffff_ffff;

/// The broadcast addresses of the interfaces, except of those that are loopback or not IPv4.
pub open spec fn broadcasts(v: Seq<Interface>) -> Seq<u32>
    decreases v.len(),
{
    if v.len() == 0 {
        Seq::empty()
    } else {
        let i = v.last();
        let rest = broadcasts(v.drop_last());
        if !i.loopback && i.ip is V4 && i.broadcast is Some {
            rest.push(i.broadcast->0)
        } else {
            rest
        }
    }
}

/// Where the question who is there goes: to this computer, to everyone, and to the
/// broadcast address of each interface.
pub fn question_targets(found: &Vec<Interface>) -> (r: Vec<u32>)
    ensures
        r@ == seq![LOCALHOST, BROADCAST] + broadcasts(found@),
{
    let mut out: Vec<u32> = Vec::new();
    out.push(LOCALHOST);
    out.push(BROADCAST);
    let mut i: usize = 0;
    assert(out@ =~= seq![LOCALHOST, BROADCAST] + broadcasts(found@.take(0)));
    while i < found.len()
        invariant
            i <= found.len(),
            out@ == seq![LOCALHOST, BROADCAST] + broadcasts(found@.take(i as int)),
        decreases found.len() - i,
    {
        let f = &found[i];
        assert(found@.take(i + 1).drop_last() =~= found@.take(i as int));
        if !f.loopback && f.ip.is_ipv4() {
            match f.broadcast {
                Some(b) => out.push(b),
                None => {},
            }
        }
        i = i + 1;
        assert(out@ =~= seq![LOCALHOST, BROADCAST] + broadcasts(found@.take(i as int)));
    }
    assert(found@.take(i as int) =~= found@);
    out
}

// ---------------------------------------------------------------- devices
/// A device that waits for files.
#[derive(Debug)]
pub struct Device {
    pub ip: Ip,
    /// Its address as text.
    pub address: String,
    /// The name of the computer; may be empty.
    pub name: String,
}

#[verifier::ext_equal]
pub struct DeviceView {
    pub ip: Ip,
    pub address: Seq<char>,
    pub name: Seq<char>,
}

impl View for Device {
    type V = DeviceView;

    open spec fn view(&self) -> DeviceView {
        DeviceView { ip: self.ip, address: self.address@, name: self.name@ }
    }
}

/// The devices as texts.
pub open spec fn devices(v: Seq<Device>) -> Seq<DeviceView> {
    v.map_values(|d: Device| d@)
}

/// Whether a device of this address is among `v`.
pub open spec fn knows(v: Seq<DeviceView>, ip: Ip) -> bool {
    exists|i: int| 0 <= i < v.len() && (#[trigger] v[i]).ip == ip
}

/// The devices after one has answered: each address counts once.
pub open spec fn met(v: Seq<DeviceView>, ip: Ip, address: Seq<char>, name: Seq<char>) -> Seq<
    DeviceView,
> {
    if knows(v, ip) {
        v
    } else {
        v.push(DeviceView { ip, address, name })
    }
}

/// The addresses as keys to sort by.
pub open spec fn address_keys(v: Seq<DeviceView>) -> Seq<(u8, Seq<char>)> {
    v.map_values(|d: DeviceView| (0u8, d.address))
}

/// The order of the devices by their addresses as texts.
pub open spec fn address_order(v: Seq<DeviceView>) -> Seq<usize> {
    choose|o: Seq<usize>| sort::sorts(address_keys(v), 0, v.len() as int, o)
}

/// The devices in the order of their addresses as texts.
pub open spec fn by_address(v: Seq<DeviceView>) -> Seq<DeviceView> {
    address_order(v).map_values(|i: usize| v[i as int])
}

fn is_known(v: &Vec<Device>, ip: Ip) -> (r: bool)
    ensures
        r == knows(devices(v@), ip),
{
    let mut i: usize = 0;
    while i < v.len()
        invariant
            i <= v.len(),
            forall|j: int| 0 <= j < i ==> (#[trigger] v@[j]).ip != ip,
        decreases v.len() - i,
    {
        if v[i].ip == ip {
            assert(devices(v@)[i as int].ip == ip);
            return true;
        }
        i = i + 1;
    }
    assert forall|j: int| 0 <= j < devices(v@).len() implies (#[trigger] devices(v@)[j]).ip
        != ip by {
        assert(v@[j].ip != ip);
    }
    false
}

/// Notes that a device has answered; `said` is what followed in the answer.
pub fn meet(v: &mut Vec<Device>, ip: Ip, address: &str, said: &str)
    ensures
        devices(final(v)@) == met(devices(old(v)@), ip, address@, text::trimmed(said@)),
{
    if !is_known(v, ip) {
        let name = text::trim_text(said);
        v.push(Device { ip, address: address.to_owned(), name });
        assert(devices(v@) =~= devices(old(v)@).push(
            DeviceView { ip, address: address@, name: name@ },
        ));
    }
}

/// Takes a packet that came after the question who is there.
pub fn discover(v: &mut Vec<Device>, ip: Ip, address: &str, p: &[u8])
    ensures
        devices(final(v)@) == if answers(p@) {
            met(
                devices(old(v)@),
                ip,
                address@,
                text::trimmed(
                    outside::utf8_lossy(p@.skip(encode_utf8(HERE_MAGIC@).len() as int)),
                ),
            )
        } else {
            devices(old(v)@)
        },
{
    if is_answer(p) {
        let n: usize = HERE_MAGIC.as_bytes().len();
        let rest = slice_subrange(p, n, p.len());
        assert(rest@ =~= p@.skip(n as int));
        let said = outside::decode_lossy(rest);
        meet(v, ip, address, said.as_str());
    }
}

/// The devices in the order of their addresses as texts.
pub fn sort_devices(v: &Vec<Device>) -> (r: Vec<Device>)
    ensures
        devices(r@) == by_address(devices(v@)),
{
    let mut keys: Vec<SortKey> = Vec::new();
    let mut i: usize = 0;
    while i < v.len()
        invariant
            i <= v.len(),
            keys.len() == i,
            forall|j: int| 0 <= j < i ==> (#[trigger] keys@[j])@ == (0u8, v@[j].address@),
        decreases v.len() - i,
    {
        keys.push(SortKey { rank: 0, text: text::chars_of(v[i].address.as_str()) });
        i = i + 1;
    }
    let ghost dv = devices(v@);
    assert(sort::keys_view(keys@) =~= address_keys(dv));
    let order = sort::sorted_order(&keys);
    proof {
        sort::law_order_is_unique(address_keys(dv), 0, dv.len() as int, order@, address_order(dv));
    }
    let mut out: Vec<Device> = Vec::new();
    let mut k: usize = 0;
    while k < order.len()
        invariant
            k <= order.len(),
            sort::sorts(address_keys(dv), 0, v@.len() as int, order@),
            dv == devices(v@),
            devices(out@) == order@.take(k as int).map_values(|i: usize| dv[i as int]),
        decreases order.len() - k,
    {
        let j: usize = order[k];
        let ghost before = out@;
        let d = copy_device(&v[j]);
        out.push(d);
        k = k + 1;
        assert(devices(out@) =~= devices(before).push(dv[j as int]));
        assert(order@.take(k as int).map_values(|i: usize| dv[i as int]) =~= order@.take(
            k - 1,
        ).map_values(|i: usize| dv[i as int]).push(dv[j as int]));
    }
    assert(order@.take(k as int) =~= order@);
    out
}

/// The same device once more.
pub fn copy_device(d: &Device) -> (r: Device)
    ensures
        r@ == d@,
{
    Device { ip: d.ip, address: d.address.clone(), name: d.name.clone() }
}

/// Each address is listed once, however often it answers.
pub proof fn law_devices_are_distinct(
    v: Seq<DeviceView>,
    ip: Ip,
    address: Seq<char>,
    name: Seq<char>,
)
    requires
        forall|i: int, j: int| 0 <= i < j < v.len() ==> (#[trigger] v[i]).ip != (#[trigger] v[j]).ip,
    ensures
        ({
            let w = met(v, ip, address, name);
            &&& knows(w, ip)
            &&& forall|i: int, j: int|
                0 <= i < j < w.len() ==> (#[trigger] w[i]).ip != (#[trigger] w[j]).ip
            &&& knows(v, ip) ==> w == v
        }),
{
    let w = met(v, ip, address, name);
    if !knows(v, ip) {
        assert(w[w.len() - 1].ip == ip);
        assert forall|i: int, j: int| 0 <= i < j < w.len() implies (#[trigger] w[i]).ip != (
        #[trigger] w[j]).ip by {
            assert(w[i] == v[i]);
        }
    }
}

/// The answer of a computer is recognised as one, and its name can be read back from it;
/// it is no question.
pub proof fn law_answer_is_recognised(name: Seq<char>)
    ensures
        answers(here(name)),
        here(name).skip(encode_utf8(HERE_MAGIC@).len() as int) == encode_utf8(name),
        decode_utf8(encode_utf8(name)) == name,
        !asks(here(name)),
{
    let m = encode_utf8(HERE_MAGIC@);
    let d = encode_utf8(DISCOVER_MAGIC@);
    assert(here(name).take(m.len() as int) =~= m);
    assert(here(name).skip(m.len() as int) =~= encode_utf8(name));
    encode_utf8_decode_utf8(name);
    reveal_strlit("TFTP-HERE");
    reveal_strlit("TFTP-DISCOVER");
    assert(is_ascii_chars(HERE_MAGIC@));
    assert(is_ascii_chars(DISCOVER_MAGIC@));
    is_ascii_chars_encode_utf8(HERE_MAGIC@);
    is_ascii_chars_encode_utf8(DISCOVER_MAGIC@);
    assert(m[5] == 'H' as u8);
    assert(d[5] == 'D' as u8);
    if asks(here(name)) {
        assert(here(name).take(d.len() as int)[5] == d[5]);
    }
}

// ---------------------------------------------------------------- waiting for answers
/// How long to wait for the next answer; nothing when the time is up.
pub fn answer_wait(now: u64, deadline: u64) -> (r: Option<u64>)
    ensures
        r == if now >= deadline {
            None
        } else if deadline - now < MIN_WAIT {
            Some(MIN_WAIT)
        } else {
            Some((deadline - now) as u64)
        },
{
    if now >= deadline {
        return None;
    }
    let left: u64 = deadline - now;
    Some(if left < MIN_WAIT { MIN_WAIT } else { left })
}

/// Whether waiting for answers goes on after a failure of the socket.
pub fn answer_again(kind: IoKind) -> (r: bool)
    ensures
        r == (kind == IoKind::Interrupted || kind == IoKind::ConnectionReset),
{
    kind == IoKind::Interrupted || kind == IoKind::ConnectionReset
}

/// What came after the other side was asked whether it is this program.
#[derive(Debug)]
pub enum ProbeEvent {
    /// The question could not be sent.
    NotSent,
    /// The time is up.
    Expired,
    Failed(IoKind),
    Packet(Vec<u8>),
}

/// What follows.
#[derive(Clone, Copy, Debug, PartialEq, Eq, Structural)]
pub enum ProbeStep {
    /// Wait on for the answer.
    Wait,
    /// Ask once more; this is question number so and so.
    Ask(u32),
    /// It is this program, or it is not.
    Known(bool),
}

/// What follows when question number `try_no`, counted from 1, has got no answer.
pub open spec fn unanswered(try_no: u32) -> ProbeStep {
    if try_no < PROBE_TRIES {
        ProbeStep::Ask((try_no + 1) as u32)
    } else {
        ProbeStep::Known(false)
    }
}

/// Whether the other side is this program: it is if and only if it answers the question
/// who is there. Any other answer, and silence after all questions, mean that it is not.
pub fn peer_has_extension(try_no: u32, event: ProbeEvent) -> (r: ProbeStep)
    ensures
        r == match event {
            ProbeEvent::NotSent => ProbeStep::Known(false),
            ProbeEvent::Expired => unanswered(try_no),
            ProbeEvent::Failed(k) => if k == IoKind::Interrupted || k == IoKind::ConnectionReset {
                ProbeStep::Wait
            } else {
                unanswered(try_no)
            },
            ProbeEvent::Packet(p) => ProbeStep::Known(answers(p@)),
        },
{
    match event {
        ProbeEvent::NotSent => ProbeStep::Known(false),
        ProbeEvent::Packet(p) => ProbeStep::Known(is_answer(&p)),
        ProbeEvent::Failed(k) => if answer_again(k) {
            ProbeStep::Wait
        } else if try_no < PROBE_TRIES {
            ProbeStep::Ask(try_no + 1)
        } else {
            ProbeStep::Known(false)
        },
        ProbeEvent::Expired => if try_no < PROBE_TRIES {
            ProbeStep::Ask(try_no + 1)
        } else {
            ProbeStep::Known(false)
        },
    }
}

// ---------------------------------------------------------------- what goes over the wire
/// The question is recognised by its thirteen bytes, "TFTP-DISCOVER", and the answer by its
/// nine, "TFTP-HERE", behind which the name of the computer stands.
pub proof fn law_magic_words(p: Seq<u8>, name: Seq<char>)
    ensures
        asks(p) <==> p.len() >= 13 && p.take(13) == seq![
            84u8, 70u8, 84u8, 80u8, 45u8, 68u8, 73u8, 83u8, 67u8, 79u8, 86u8, 69u8, 82u8,
        ],
        answers(p) <==> p.len() >= 9 && p.take(9) == seq![
            84u8, 70u8, 84u8, 80u8, 45u8, 72u8, 69u8, 82u8, 69u8,
        ],
        here(name) == seq![84u8, 70u8, 84u8, 80u8, 45u8, 72u8, 69u8, 82u8, 69u8] + encode_utf8(
            name,
        ),
{
    reveal_strlit("TFTP-DISCOVER");
    reveal_strlit("TFTP-HERE");
    is_ascii_chars_encode_utf8("TFTP-DISCOVER"@);
    is_ascii_chars_encode_utf8("TFTP-HERE"@);
    let d = encode_utf8("TFTP-DISCOVER"@);
    let h = encode_utf8("TFTP-HERE"@);
    assert forall|i: int| 0 <= i < 13 implies d[i] == #[trigger] "TFTP-DISCOVER"@[i] as u8 by {}
    assert forall|i: int| 0 <= i < 9 implies h[i] == #[trigger] "TFTP-HERE"@[i] as u8 by {}
    assert(d =~= seq![
        84u8, 70u8, 84u8, 80u8, 45u8, 68u8, 73u8, 83u8, 67u8, 79u8, 86u8, 69u8, 82u8,
    ]);
    assert(h =~= seq![84u8, 70u8, 84u8, 80u8, 45u8, 72u8, 69u8, 82u8, 69u8]);
}

/// The name of the computer is the first that is known of the three, without white space
/// around it.
pub proof fn law_name_of_the_computer(
    s: Seq<char>,
    b: Option<Seq<char>>,
    c: Option<Seq<char>>,
)
    ensures
        first_name(Some(s), b, c) == text::trimmed(s),
        first_name(None, Some(s), c) == text::trimmed(s),
        first_name(None, None, Some(s)) == text::trimmed(s),
        first_name(None, None, None) == Seq::<char>::empty(),
{
}

/// All IPv4 addresses of this computer count, in their order, but for those that stay inside
/// it; and everybody is asked whom they can reach together.
pub proof fn law_interfaces_that_count(a: Seq<Interface>, b: Seq<Interface>, i: Interface)
    ensures
        reachable(a + b) == reachable(a) + reachable(b),
        reachable(seq![i]) == if i.loopback {
            Seq::empty()
        } else {
            match i.ip {
                Ip::V4(_) => seq![(i.name@, i.ip)],
                Ip::V6(_) => Seq::empty(),
            }
        },
        reachable(Seq::empty()) == Seq::<(Seq<char>, Ip)>::empty(),
        broadcasts(a + b) == broadcasts(a) + broadcasts(b),
        broadcasts(seq![i]) == if i.loopback || i.ip is V6 {
            Seq::empty()
        } else {
            match i.broadcast {
                Some(x) => seq![x],
                None => Seq::empty(),
            }
        },
        broadcasts(Seq::empty()) == Seq::<u32>::empty(),
        LOCALHOST == 0x7f00_0001,
        BROADCAST == 0xffff_ffff,
    decreases b.len(),
{
    let one = seq![i];
    assert(one.drop_last() =~= Seq::<Interface>::empty());
    assert(reachable(one.drop_last()) =~= Seq::<(Seq<char>, Ip)>::empty());
    assert(broadcasts(one.drop_last()) =~= Seq::<u32>::empty());
    assert(Seq::<(Seq<char>, Ip)>::empty().push((i.name@, i.ip)) =~= seq![(i.name@, i.ip)]);
    if let Some(x) = i.broadcast {
        assert(Seq::<u32>::empty().push(x) =~= seq![x]);
    }
    let s = a + b;
    if b.len() == 0 {
        assert(s =~= a);
        assert(reachable(a) + reachable(b) =~= reachable(a));
        assert(broadcasts(a) + broadcasts(b) =~= broadcasts(a));
    } else {
        assert(s.drop_last() =~= a + b.drop_last());
        assert(s.last() == b.last());
        law_interfaces_that_count(a, b.drop_last(), i);
        assert(reachable(s) =~= reachable(a) + reachable(b));
        assert(broadcasts(s) =~= broadcasts(a) + broadcasts(b));
    }
}

/// Who answers is listed with its address and the name it gave, behind those already known.
pub proof fn law_who_answers_is_listed(
    v: Seq<DeviceView>,
    ip: Ip,
    address: Seq<char>,
    name: Seq<char>,
)
    requires
        forall|i: int| 0 <= i < v.len() ==> (#[trigger] v[i]).ip != ip,
    ensures
        met(v, ip, address, name) == v + seq![DeviceView { ip, address, name }],
{
    assert(v.push(DeviceView { ip, address, name }) =~= v + seq![DeviceView { ip, address, name }]);
}

/// The devices that were found are shown in the order of their addresses, every one of them
/// and no other.
pub proof fn law_devices_are_sorted(v: Seq<DeviceView>)
    requires
        v.len() <= usize::MAX,
    ensures
        by_address(v).len() == v.len(),
        forall|i: int| 0 <= i < v.len() ==> by_address(v).contains(#[trigger] v[i]),
        forall|p: int| 0 <= p < v.len() ==> v.contains(#[trigger] by_address(v)[p]),
        forall|p: int, q: int|
            0 <= p < q < v.len() ==> !sort::text_before(
                (#[trigger] by_address(v)[q]).address,
                (#[trigger] by_address(v)[p]).address,
            ),
{
    let keys = address_keys(v);
    let _ = sort::law_order_exists(keys, v.len() as int);
    let o = address_order(v);
    let s = by_address(v);
    assert forall|i: int| 0 <= i < v.len() implies s.contains(#[trigger] v[i]) by {
        assert(o.contains(i as usize));
        let p = choose|p: int| 0 <= p < o.len() && o[p] == i as usize;
        assert(s[p] == v[i]);
    }
    assert forall|p: int| 0 <= p < v.len() implies v.contains(#[trigger] s[p]) by {
        assert(s[p] == v[o[p] as int]);
    }
    assert forall|p: int, q: int| 0 <= p < q < v.len() implies !sort::text_before(
        (#[trigger] s[q]).address,
        (#[trigger] s[p]).address,
    ) by {
        assert(sort::item_before(keys, o[p] as int, o[q] as int));
        sort::law_item_order(keys, o[p] as int, o[q] as int, o[p] as int);
        assert(keys[o[p] as int].1 == s[p].address);
        assert(keys[o[q] as int].1 == s[q].address);
    }
}

/// The other side is asked three times whether it is this program.
pub proof fn law_asked_three_times()
    ensures
        unanswered(1) == ProbeStep::Ask(2),
        unanswered(2) == ProbeStep::Ask(3),
        unanswered(3) == ProbeStep::Known(false),
        forall|n: u32| n >= 3 ==> #[trigger] unanswered(n) == ProbeStep::Known(false),
{
}

} // verus!
