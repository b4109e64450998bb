//! Which addresses are dialled, in which order, and how a peer that answers was reached.

use vstd::prelude::*;

use crate::address::{contains_address, IpAddr, SocketAddr};
use crate::peer::ordering::{candidate_order, capped, first_occurrences, v6_first};
use crate::NetworkType;

verus! {

/// How many discovered addresses are dialled at once.
pub const BATCH_SIZE: usize = 10;

/// The port mainnet peers listen on.
pub const MAINNET_PORT: u16 = 8444;

/// The port testnet11 peers listen on.
pub const TESTNET11_PORT: u16 = 58444;

/// The loopback address, `127.0.0.1`.
pub const LOCALHOST: u32 = 0x7f00_0001;

/// How a peer was reached.
///
/// A priority peer is a good one to ask and no independent voice: a process on this machine is
/// exactly the source a local attacker can supply.
#[derive(Clone, Copy, Debug, PartialEq, Eq, Structural)]
pub enum PeerOrigin {
    /// From an address tried ahead of discovery.
    Priority,
    /// From an introducer's set.
    Discovered,
}

/// The port the peers of `network` listen on.
pub open spec fn spec_default_port(network: NetworkType) -> u16 {
    match network {
        NetworkType::Mainnet => MAINNET_PORT,
        NetworkType::Testnet11 => TESTNET11_PORT,
    }
}

/// The port the peers of `network` listen on.
pub fn default_port(network: NetworkType) -> (port: u16)
    ensures
        port == spec_default_port(network),
{
    match network {
        NetworkType::Mainnet => MAINNET_PORT,
        NetworkType::Testnet11 => TESTNET11_PORT,
    }
}

/// The addresses tried ahead of discovery: the operator's node where one is configured, then a
/// node on this machine.
pub open spec fn preferred(trusted: Option<IpAddr>, port: u16) -> Seq<SocketAddr> {
    let local = SocketAddr { ip: IpAddr::V4(LOCALHOST), port };
    match trusted {
        Some(ip) => seq![SocketAddr { ip, port }, local],
        None => seq![local],
    }
}

/// `addresses` without those in `exclude`.
pub open spec fn without(addresses: Seq<SocketAddr>, exclude: Seq<SocketAddr>) -> Seq<SocketAddr> {
    addresses.filter(|a: SocketAddr| !exclude.contains(a))
}

/// The addresses tried ahead of discovery, without those the caller already holds.
///
/// They are computed for every dial. Without the exclusion a caller that fills several slots would
/// be offered the same local address every time.
pub fn priority_addresses_from(
    trusted: Option<IpAddr>,
    default_port: u16,
    exclude: &[SocketAddr],
) -> (addresses: Vec<SocketAddr>)
    ensures
        addresses@ == without(preferred(trusted, default_port), exclude@),
{
    let ghost wanted = |a: SocketAddr| !exclude@.contains(a);
    let mut addresses: Vec<SocketAddr> = Vec::new();
    proof {
        reveal(Seq::filter);
        assert(Seq::<SocketAddr>::empty().filter(wanted) =~= Seq::empty());
    }
    if let Some(ip) = trusted {
        let own = SocketAddr::new(ip, default_port);
        proof {
            Seq::<SocketAddr>::empty().lemma_filter_push(own, wanted);
        }
        if !contains_address(exclude, own) {
            addresses.push(own);
        }
        assert(Seq::<SocketAddr>::empty().push(own) =~= seq![own]);
        assert(addresses@ =~= seq![own].filter(wanted));
    }
    let local = SocketAddr::new(IpAddr::V4(LOCALHOST), default_port);
    let ghost earlier = match trusted {
        Some(ip) => seq![SocketAddr { ip, port: default_port }],
        None => Seq::<SocketAddr>::empty(),
    };
    proof {
        earlier.lemma_filter_push(local, wanted);
        assert(earlier.push(local) =~= preferred(trusted, default_port));
    }
    if !contains_address(exclude, local) {
        addresses.push(local);
    }
    addresses
}

/// Whether an IPv4 address lies on this host or its local network: loopback, the private blocks,
/// link-local, unspecified or broadcast.
pub open spec fn is_local_v4(bits: u32) -> bool {
    ||| bits / 0x100_0000 == 127
    ||| bits / 0x100_0000 == 10
    ||| bits / 0x10_0000 == 0xac1
    ||| bits / 0x1_0000 == 0xc0a8
    ||| bits / 0x1_0000 == 0xa9fe
    ||| bits == 0
    ||| bits == 0xffff_ffff
}

/// Whether an IPv6 address lies on this host or its local network: loopback, unspecified,
/// unique-local `fc00::/7` or link-local `fe80::/10`.
pub open spec fn is_local_v6(bits: u128) -> bool {
    ||| bits == 1
    ||| bits == 0
    ||| bits / 0x200_0000_0000_0000_0000_0000_0000_0000 == 0x7e
    ||| bits / 0x40_0000_0000_0000_0000_0000_0000_0000 == 0x3fa
}

/// Whether an IPv6 address spells an IPv4 one, as `::ffff:a.b.c.d`.
pub open spec fn is_mapped_v4(bits: u128) -> bool {
    bits / 0x1_0000_0000 == 0xffff
}

/// Whether an address lies on this host or its local network. An IPv4 address spelled as an IPv6
/// one is the same host, and is judged as the IPv4 address it spells.
pub open spec fn is_local(address: SocketAddr) -> bool {
    match address.ip {
        IpAddr::V4(bits) => is_local_v4(bits),
        IpAddr::V6(bits) => if is_mapped_v4(bits) {
            is_local_v4((bits % 0x1_0000_0000) as u32)
        } else {
            is_local_v6(bits)
        },
    }
}

fn is_v4_local(bits: u32) -> (local: bool)
    ensures
        local == is_local_v4(bits),
{
    bits / 0x100_0000 == 127 || bits / 0x100_0000 == 10 || bits / 0x10_0000 == 0xac1 || bits
        / 0x1_0000 == 0xc0a8 || bits / 0x1_0000 == 0xa9fe || bits == 0 || bits == 0xffff_ffff
}

/// Whether `address` lies on this host or its local network.
///
/// Such an address is refused from the discovered set, where it would count as an independent
/// voice.
pub fn is_host_local(address: &SocketAddr) -> (local: bool)
    ensures
        local == is_local(*address),
{
    match address.ip {
        IpAddr::V4(bits) => is_v4_local(bits),
        IpAddr::V6(bits) => if bits / 0x1_0000_0000 == 0xffff {
            is_v4_local((bits % 0x1_0000_0000) as u32)
        } else {
            bits == 1 || bits == 0 || bits / 0x200_0000_0000_0000_0000_0000_0000_0000 == 0x7e
                || bits / 0x40_0000_0000_0000_0000_0000_0000_0000 == 0x3fa
        },
    }
}

/// The discovered addresses worth dialling: not local, not already tried as priority addresses and
/// not already held by the caller.
pub open spec fn dialable(
    ordered: Seq<SocketAddr>,
    priority: Seq<SocketAddr>,
    exclude: Seq<SocketAddr>,
) -> Seq<SocketAddr> {
    ordered.filter(
        |a: SocketAddr| !is_local(a) && !priority.contains(a) && !exclude.contains(a),
    )
}

/// The discovered addresses worth dialling.
pub fn dialable_candidates(
    ordered: &[SocketAddr],
    priority: &[SocketAddr],
    exclude: &[SocketAddr],
) -> (addresses: Vec<SocketAddr>)
    ensures
        addresses@ == dialable(ordered@, priority@, exclude@),
{
    let ghost wanted = |a: SocketAddr|
        !is_local(a) && !priority@.contains(a) && !exclude@.contains(a);
    let mut addresses: Vec<SocketAddr> = Vec::new();
    let mut i: usize = 0;
    proof {
        reveal(Seq::filter);
    }
    while i < ordered.len()
        invariant
            i <= ordered.len(),
            wanted == (|a: SocketAddr|
                !is_local(a) && !priority@.contains(a) && !exclude@.contains(a)),
            addresses@ == ordered@.take(i as int).filter(wanted),
        decreases ordered.len() - i,
    {
        let address = ordered[i];
        proof {
            assert(ordered@.take(i + 1) =~= ordered@.take(i as int).push(address));
            ordered@.take(i as int).lemma_filter_push(address, wanted);
        }
        if !is_host_local(&address) && !contains_address(priority, address) && !contains_address(
            exclude,
            address,
        ) {
            addresses.push(address);
        }
        i = i + 1;
    }
    assert(ordered@.take(i as int) =~= ordered@);
    addresses
}

/// How far a dial has got.
pub enum DialStage {
    /// Trying the priority address at this position.
    Priority(usize),
    /// Asking the introducers.
    LookUp,
    /// Trying the batch of discovered addresses that starts at this position.
    Batches(Vec<SocketAddr>, usize),
    /// Nothing is left to try.
    Failed,
}

/// What a dial does next.
pub enum DialAction {
    /// Connect to one address.
    TryPriority(SocketAddr),
    /// Resolve the introducers.
    LookUp,
    /// Connect to these at once, and keep the first that answers.
    TryBatch(Vec<SocketAddr>),
    /// Report that no peer was found.
    Fail,
}

/// How far a dial has got, over sequences.
pub enum StageView {
    Priority(int),
    LookUp,
    Batches(Seq<SocketAddr>, int),
    Failed,
}

/// One attempt to find a peer whose address is not excluded.
///
/// The priority addresses are tried one after another, then the introducers are asked, then what
/// they returned is tried in batches. The caller connects and resolves; this decides.
pub struct Dial {
    exclude: Vec<SocketAddr>,
    priority: Vec<SocketAddr>,
    stage: DialStage,
}

/// The stage a priority list begins at.
pub open spec fn opening(priority: Seq<SocketAddr>) -> StageView {
    if priority.len() == 0 {
        StageView::LookUp
    } else {
        StageView::Priority(0)
    }
}

/// The stage a set of candidates leads to.
pub open spec fn dialling(candidates: Seq<SocketAddr>) -> StageView {
    if candidates.len() == 0 {
        StageView::Failed
    } else {
        StageView::Batches(candidates, 0)
    }
}

/// The end of the batch of `candidates` that starts at `from`.
pub open spec fn batch_end(candidates: Seq<SocketAddr>, from: int) -> int {
    if from + BATCH_SIZE < candidates.len() {
        from + BATCH_SIZE
    } else {
        candidates.len() as int
    }
}

/// The batch of `candidates` that starts at `from`.
pub open spec fn batch(candidates: Seq<SocketAddr>, from: int) -> Seq<SocketAddr> {
    candidates.subrange(from, batch_end(candidates, from))
}

impl DialStage {
    pub open spec fn view(&self) -> StageView {
        match *self {
            DialStage::Priority(next) => StageView::Priority(next as int),
            DialStage::LookUp => StageView::LookUp,
            DialStage::Batches(addresses, from) => StageView::Batches(addresses@, from as int),
            DialStage::Failed => StageView::Failed,
        }
    }
}

impl Dial {
    /// The addresses the caller already holds.
    pub closed spec fn excluded(&self) -> Seq<SocketAddr> {
        self.exclude@
    }

    /// The addresses tried ahead of discovery.
    pub closed spec fn priority(&self) -> Seq<SocketAddr> {
        self.priority@
    }

    /// How far the dial has got.
    pub closed spec fn stage(&self) -> StageView {
        self.stage.view()
    }

    /// A position stands inside its list, and every candidate is worth dialling.
    pub open spec fn wf(&self) -> bool {
        match self.stage() {
            StageView::Priority(next) => 0 <= next < self.priority().len(),
            StageView::Batches(candidates, from) => {
                &&& 0 <= from < candidates.len()
                &&& forall|i: int|
                    0 <= i < candidates.len() ==> !is_local(#[trigger] candidates[i])
                        && !self.priority().contains(candidates[i])
                        && !self.excluded().contains(candidates[i])
            },
            _ => true,
        }
    }

    /// Begins a dial on `network`, with the operator's node where one is configured.
    pub fn start(network: NetworkType, trusted: Option<IpAddr>, exclude: Vec<SocketAddr>) -> (dial:
        Self)
        ensures
            dial.wf(),
            dial.excluded() == exclude@,
            dial.priority() == without(
                preferred(trusted, spec_default_port(network)),
                exclude@,
            ),
            dial.stage() == opening(dial.priority()),
    {
        let priority = priority_addresses_from(trusted, default_port(network), &exclude);
        let stage = if priority.len() == 0 {
            DialStage::LookUp
        } else {
            DialStage::Priority(0)
        };
        Dial { exclude, priority, stage }
    }

    /// What to do next.
    pub fn action(&self) -> (action: DialAction)
        requires
            self.wf(),
        ensures
            match self.stage() {
                StageView::Priority(next) => action == DialAction::TryPriority(
                    self.priority()[next],
                ),
                StageView::LookUp => action is LookUp,
                StageView::Batches(candidates, from) => action matches DialAction::TryBatch(chosen)
                    && chosen@ == batch(candidates, from),
                StageView::Failed => action is Fail,
            },
    {
        match &self.stage {
            DialStage::Priority(next) => DialAction::TryPriority(self.priority[*next]),
            DialStage::LookUp => DialAction::LookUp,
            DialStage::Batches(addresses, from) => {
                let start: usize = *from;
                let end: usize = if addresses.len() - start > BATCH_SIZE {
                    start + BATCH_SIZE
                } else {
                    addresses.len()
                };
                let mut chosen: Vec<SocketAddr> = Vec::new();
                let mut i: usize = start;
                while i < end
                    invariant
                        start <= i <= end <= addresses.len(),
                        chosen@ == addresses@.subrange(start as int, i as int),
                    decreases end - i,
                {
                    chosen.push(addresses[i]);
                    i = i + 1;
                    assert(chosen@ =~= addresses@.subrange(start as int, i as int));
                }
                DialAction::TryBatch(chosen)
            },
            DialStage::Failed => DialAction::Fail,
        }
    }

    /// How a peer that answers the current action was reached.
    pub fn origin(&self) -> (origin: Option<PeerOrigin>)
        ensures
            origin == (match self.stage() {
                StageView::Priority(_) => Some(PeerOrigin::Priority),
                StageView::Batches(_, _) => Some(PeerOrigin::Discovered),
                _ => None,
            }),
    {
        match &self.stage {
            DialStage::Priority(_) => Some(PeerOrigin::Priority),
            DialStage::Batches(_, _) => Some(PeerOrigin::Discovered),
            _ => None,
        }
    }

    /// The priority address, or every address of the batch, failed to answer.
    pub fn attempt_failed(&mut self)
        requires
            old(self).wf(),
        ensures
            final(self).wf(),
            final(self).excluded() == old(self).excluded(),
            final(self).priority() == old(self).priority(),
            final(self).stage() == (match old(self).stage() {
                StageView::Priority(next) => if next + 1 < old(self).priority().len() {
                    StageView::Priority(next + 1)
                } else {
                    StageView::LookUp
                },
                StageView::Batches(candidates, from) => if from + BATCH_SIZE < candidates.len() {
                    StageView::Batches(candidates, from + BATCH_SIZE)
                } else {
                    StageView::Failed
                },
                StageView::LookUp => StageView::LookUp,
                StageView::Failed => StageView::Failed,
            }),
    {
        let mut stage = DialStage::Failed;
        std::mem::swap(&mut stage, &mut self.stage);
        assert(stage.view() == old(self).stage());
        self.stage = match stage {
            DialStage::Priority(next) => if self.priority.len() - next > 1 {
                DialStage::Priority(next + 1)
            } else {
                DialStage::LookUp
            },
            DialStage::Batches(addresses, from) => if addresses.len() - from > BATCH_SIZE {
                DialStage::Batches(addresses, from + BATCH_SIZE)
            } else {
                DialStage::Failed
            },
            DialStage::LookUp => DialStage::LookUp,
            DialStage::Failed => DialStage::Failed,
        };
    }

    /// Takes the introducers' addresses, already in dial order.
    pub fn looked_up_in_order(&mut self, ordered: &[SocketAddr])
        requires
            old(self).wf(),
        ensures
            final(self).wf(),
            final(self).excluded() == old(self).excluded(),
            final(self).priority() == old(self).priority(),
            final(self).stage() == (if old(self).stage() is LookUp {
                dialling(dialable(ordered@, old(self).priority(), old(self).excluded()))
            } else {
                old(self).stage()
            }),
    {
        if let DialStage::LookUp = self.stage {
            let candidates = dialable_candidates(ordered, &self.priority, &self.exclude);
            proof {
                let wanted = |a: SocketAddr|
                    !is_local(a) && !self.priority@.contains(a) && !self.exclude@.contains(a);
                assert forall|i: int| 0 <= i < candidates@.len() implies !is_local(
                    #[trigger] candidates@[i],
                ) && !self.priority@.contains(candidates@[i]) && !self.exclude@.contains(
                    candidates@[i],
                ) by {
                    ordered@.lemma_filter_pred(wanted, i);
                }
            }
            self.stage = if candidates.len() == 0 {
                DialStage::Failed
            } else {
                DialStage::Batches(candidates, 0)
            };
        }
    }

    /// Takes the introducers' addresses.
    pub fn looked_up(&mut self, discovered: &[SocketAddr])
        requires
            old(self).wf(),
        ensures
            final(self).wf(),
            final(self).excluded() == old(self).excluded(),
            final(self).priority() == old(self).priority(),
            old(self).stage() !is LookUp ==> final(self).stage() == old(self).stage(),
            old(self).stage() is LookUp ==> exists|shuffled: Seq<SocketAddr>|
                shuffled.to_multiset() == first_occurrences(discovered@).to_multiset()
                    && final(self).stage() == dialling(
                    dialable(
                        #[trigger] v6_first(capped(shuffled)),
                        old(self).priority(),
                        old(self).excluded(),
                    ),
                ),
    {
        let ordered = candidate_order(discovered);
        self.looked_up_in_order(&ordered);
    }
}

/// A peer reached from the discovered set never stands on this host or its network, never is one
/// of the priority addresses and never is one the caller holds.
pub proof fn law_discovered_peers_are_new_and_public(dial: Dial, address: SocketAddr)
    requires
        dial.wf(),
        dial.stage() is Batches,
        batch(dial.stage()->Batches_0, dial.stage()->Batches_1).contains(address),
    ensures
        !is_local(address),
        !dial.priority().contains(address),
        !dial.excluded().contains(address),
{
    let candidates = dial.stage()->Batches_0;
    let from = dial.stage()->Batches_1;
    let chosen = batch(candidates, from);
    let i = choose|i: int| 0 <= i < chosen.len() && chosen[i] == address;
    assert(candidates[from + i] == address);
}

/// A priority address the caller already holds is not offered again.
pub proof fn law_held_priority_address_is_not_offered(
    trusted: Option<IpAddr>,
    port: u16,
    exclude: Seq<SocketAddr>,
    address: SocketAddr,
)
    requires
        without(preferred(trusted, port), exclude).contains(address),
    ensures
        !exclude.contains(address),
        preferred(trusted, port).contains(address),
{
    let wanted = |a: SocketAddr| !exclude.contains(a);
    let offered = without(preferred(trusted, port), exclude);
    let i = choose|i: int| 0 <= i < offered.len() && offered[i] == address;
    preferred(trusted, port).lemma_filter_pred(wanted, i);
    preferred(trusted, port).lemma_filter_contains_rev(wanted, address);
}

/// The addresses tried ahead of discovery take no more slots than the pool is sized for.
pub proof fn law_priority_addresses_fit_their_slots(
    trusted: Option<IpAddr>,
    port: u16,
    exclude: Seq<SocketAddr>,
)
    ensures
        without(preferred(trusted, port), exclude).len()
            <= crate::peer::plurality::PRIORITY_SLOTS,
{
    preferred(trusted, port).lemma_filter_len(|a: SocketAddr| !exclude.contains(a));
}

/// A node on this machine is dialled before the introducers are asked, unless it is held already,
/// and the operator's node is dialled before it.
pub proof fn law_own_nodes_are_tried_before_discovery(
    trusted: Option<IpAddr>,
    port: u16,
    exclude: Seq<SocketAddr>,
)
    ensures
        ({
            let local = SocketAddr { ip: IpAddr::V4(LOCALHOST), port };
            let offered = without(preferred(trusted, port), exclude);
            &&& !exclude.contains(local) ==> offered.contains(local) && opening(offered)
                == StageView::Priority(0)
            &&& trusted is Some && !exclude.contains(SocketAddr { ip: trusted->0, port })
                ==> offered[0] == (SocketAddr { ip: trusted->0, port }) && opening(offered)
                == StageView::Priority(0)
        }),
{
    let local = SocketAddr { ip: IpAddr::V4(LOCALHOST), port };
    let wanted = |a: SocketAddr| !exclude.contains(a);
    let all = preferred(trusted, port);
    let offered = without(all, exclude);
    reveal(Seq::filter);
    if !exclude.contains(local) {
        assert(all.last() == local);
        all.lemma_filter_contains(wanted, all.len() - 1);
        assert(offered.contains(local));
        assert(offered.len() > 0);
    }
    if let Some(ip) = trusted {
        let own = SocketAddr { ip, port };
        if !exclude.contains(own) {
            assert(all.drop_last() =~= seq![own]);
            assert(seq![own].drop_last() =~= Seq::<SocketAddr>::empty());
            assert(Seq::<SocketAddr>::empty().filter(wanted) =~= Seq::<SocketAddr>::empty());
            assert(seq![own].filter(wanted) =~= seq![own]);
            assert(offered[0] == own);
        }
    }
}

/// Two places are tried ahead of discovery at most, both on the network's port: the operator's
/// node where one is configured, and last the node on this machine.
pub proof fn law_own_nodes_and_their_ports(network: NetworkType, trusted: Option<IpAddr>, port: u16)
    ensures
        spec_default_port(network) == (match network {
            NetworkType::Mainnet => 8444u16,
            NetworkType::Testnet11 => 58444u16,
        }),
        preferred(trusted, port).len() == (if trusted is Some {
            2int
        } else {
            1
        }),
        preferred(trusted, port).last().ip == IpAddr::V4(
            (127 * 0x100_0000 + 0 * 0x1_0000 + 0 * 0x100 + 1) as u32,
        ),
        trusted is Some ==> preferred(trusted, port)[0].ip == trusted->0,
        forall|i: int|
            0 <= i < preferred(trusted, port).len() ==> (#[trigger] preferred(
                trusted,
                port,
            )[i]).port == port,
{
}

/// What is held already is left out address by address, and what is left keeps its order.
pub proof fn law_held_addresses_are_left_out_one_by_one(
    addresses: Seq<SocketAddr>,
    priority: Seq<SocketAddr>,
    exclude: Seq<SocketAddr>,
    a: SocketAddr,
)
    ensures
        without(Seq::empty(), exclude) == Seq::<SocketAddr>::empty(),
        without(addresses.push(a), exclude) == (if exclude.contains(a) {
            without(addresses, exclude)
        } else {
            without(addresses, exclude).push(a)
        }),
        dialable(Seq::empty(), priority, exclude) == Seq::<SocketAddr>::empty(),
        dialable(addresses.push(a), priority, exclude) == (if is_local(a) || priority.contains(a)
            || exclude.contains(a) {
            dialable(addresses, priority, exclude)
        } else {
            dialable(addresses, priority, exclude).push(a)
        }),
{
    let held = |a: SocketAddr| !exclude.contains(a);
    let wanted = |a: SocketAddr| !is_local(a) && !priority.contains(a) && !exclude.contains(a);
    reveal(Seq::filter);
    assert(without(Seq::empty(), exclude) =~= Seq::<SocketAddr>::empty());
    assert(dialable(Seq::empty(), priority, exclude) =~= Seq::<SocketAddr>::empty());
    addresses.lemma_filter_push(a, held);
    addresses.lemma_filter_push(a, wanted);
}

/// An IPv4 address is local exactly if it is 127.x.x.x, 10.x.x.x, 172.16.x.x to 172.31.x.x,
/// 192.168.x.x, 169.254.x.x, 0.0.0.0 or 255.255.255.255, whichever way it is spelled.
pub proof fn law_local_ipv4_addresses(a: u8, b: u8, c: u8, d: u8, port: u16)
    ensures
        ({
            let bits = a * 0x100_0000 + b * 0x1_0000 + c * 0x100 + d;
            let local = {
                ||| a == 127
                ||| a == 10
                ||| a == 172 && 16 <= b <= 31
                ||| a == 192 && b == 168
                ||| a == 169 && b == 254
                ||| a == 0 && b == 0 && c == 0 && d == 0
                ||| a == 255 && b == 255 && c == 255 && d == 255
            };
            &&& is_local(SocketAddr { ip: IpAddr::V4(bits as u32), port }) <==> local
            &&& is_local(
                SocketAddr { ip: IpAddr::V6((0xffff * 0x1_0000_0000 + bits) as u128), port },
            ) <==> local
        }),
{
    let bits: int = a * 0x100_0000 + b * 0x1_0000 + c * 0x100 + d;
    assert(0 <= bits < 0x1_0000_0000);
    assert(bits / 0x100_0000 == a);
    assert(bits / 0x10_0000 == a * 16 + b as int / 16);
    assert(bits / 0x1_0000 == a * 256 + b);
    let spelled = (0xffff * 0x1_0000_0000 + bits) as u128;
    assert(spelled as int == 0xffff * 0x1_0000_0000 + bits);
    assert(spelled as int / 0x1_0000_0000 == 0xffff);
    assert(spelled as int % 0x1_0000_0000 == bits);
}

/// An IPv6 address that spells no IPv4 one is local exactly if it is `::`, `::1`, or its first group
/// lies between fc00 and fdff or between fe80 and febf.
pub proof fn law_local_ipv6_addresses(group: u16, rest: u128, port: u16)
    requires
        rest < 0x1_0000_0000_0000_0000_0000_0000_0000,
        group != 0 || rest < 0xffff_0000_0000 || rest >= 0x1_0000_0000_0000,
    ensures
        is_local(
            SocketAddr {
                ip: IpAddr::V6(
                    (group * 0x1_0000_0000_0000_0000_0000_0000_0000 + rest) as u128,
                ),
                port,
            },
        ) <==> {
            ||| group == 0 && rest == 0
            ||| group == 0 && rest == 1
            ||| 0xfc00 <= group <= 0xfdff
            ||| 0xfe80 <= group <= 0xfebf
        },
{
    let bits: int = group * 0x1_0000_0000_0000_0000_0000_0000_0000 + rest;
    assert(0 <= bits < 0x1_0000_0000_0000_0000_0000_0000_0000_0000);
    assert(bits / 0x200_0000_0000_0000_0000_0000_0000_0000 == group as int / 512);
    assert(bits / 0x40_0000_0000_0000_0000_0000_0000_0000 == group as int / 64);
    if group != 0 {
        assert(bits >= 0x1_0000_0000_0000_0000_0000_0000_0000);
        assert(bits / 0x1_0000_0000 != 0xffff);
    }
}

/// The discovered addresses are dialled ten at a time, in order, and none is skipped: a batch holds
/// the next ten, or what is left.
pub proof fn law_batches_hold_the_next_ten(candidates: Seq<SocketAddr>, from: int)
    requires
        0 <= from < candidates.len(),
    ensures
        batch(candidates, from).len() == (if candidates.len() - from >= 10 {
            10
        } else {
            candidates.len() - from
        }),
        forall|i: int|
            0 <= i < batch(candidates, from).len() ==> #[trigger] batch(candidates, from)[i]
                == candidates[from + i],
{
}

/// A dial begins with the priority addresses where there are any, and with the batches where the
/// introducers sent any candidate; without either it goes on.
pub proof fn law_a_dial_skips_what_is_empty(addresses: Seq<SocketAddr>)
    ensures
        addresses.len() > 0 ==> opening(addresses) == StageView::Priority(0) && dialling(addresses)
            == StageView::Batches(addresses, 0),
        addresses.len() == 0 ==> opening(addresses) is LookUp && dialling(addresses) is Failed,
{
}

/// A dial does what its stage says: it tries the priority address it has come to, then asks the
/// introducers, then tries its candidates ten at a time, and reports failure after them. A peer that
/// answers a priority address was not discovered.
pub proof fn law_a_dial_does_what_its_stage_says(
    dial: Dial,
    action: DialAction,
    origin: Option<PeerOrigin>,
)
    requires
        dial.wf(),
        call_ensures(Dial::action, (&dial,), action),
        call_ensures(Dial::origin, (&dial,), origin),
    ensures
        dial.stage() matches StageView::Priority(next) ==> action == DialAction::TryPriority(
            dial.priority()[next],
        ) && origin == Some(PeerOrigin::Priority),
        dial.stage() is LookUp ==> action is LookUp && origin is None,
        dial.stage() is Failed ==> action is Fail && origin is None,
        dial.stage() matches StageView::Batches(candidates, from) ==> origin == Some(
            PeerOrigin::Discovered,
        ) && (action matches DialAction::TryBatch(chosen) && chosen@.len() > 0 && chosen@.len() <= 10
            && forall|i: int|
            0 <= i < chosen@.len() ==> #[trigger] chosen@[i] == candidates[from + i]),
{
}

/// A dial that fails moves on by one step and skips nothing: to the next priority address, from the
/// last of them to the introducers, by ten candidates to the next batch, and from the last batch to
/// failure.
pub proof fn law_a_failed_attempt_moves_on_by_one_step(dial: &mut Dial)
    requires
        call_ensures(Dial::attempt_failed, (dial,), ()),
    ensures
        final(dial).priority() == old(dial).priority(),
        final(dial).excluded() == old(dial).excluded(),
        old(dial).stage() matches StageView::Priority(next) ==> if next + 1
            == old(dial).priority().len() {
            final(dial).stage() is LookUp
        } else {
            next + 1 < old(dial).priority().len() ==> final(dial).stage() == StageView::Priority(
                next + 1,
            )
        },
        old(dial).stage() matches StageView::Batches(candidates, from) ==> if from + 10
            >= candidates.len() {
            final(dial).stage() is Failed
        } else {
            final(dial).stage() == StageView::Batches(candidates, from + 10)
        },
        old(dial).stage() is LookUp ==> final(dial).stage() is LookUp,
        old(dial).stage() is Failed ==> final(dial).stage() is Failed,
{
}

/// What the introducers send is tried from its first address, without those that are local, tried
/// already or held; where nothing is left of it the dial fails. Before or after it was asked for, it
/// changes nothing.
pub proof fn law_only_new_public_addresses_are_dialled(
    dial: &mut Dial,
    ordered: &[SocketAddr],
    address: SocketAddr,
)
    requires
        call_ensures(Dial::looked_up_in_order, (dial, ordered), ()),
        old(dial).stage() is LookUp,
    ensures
        ({
            let wanted = ordered@.contains(address) && !is_local(address)
                && !old(dial).priority().contains(address) && !old(dial).excluded().contains(
                address,
            );
            &&& wanted ==> final(dial).stage() is Batches
            &&& final(dial).stage() matches StageView::Batches(candidates, from) ==> from == 0 && (
            candidates.contains(address) <==> wanted)
            &&& final(dial).stage() is Batches || final(dial).stage() is Failed
        }),
{
    let priority = old(dial).priority();
    let exclude = old(dial).excluded();
    let keep = |a: SocketAddr| !is_local(a) && !priority.contains(a) && !exclude.contains(a);
    let kept = ordered@.filter(keep);
    assert(dialable(ordered@, priority, exclude) == kept);
    if kept.contains(address) {
        ordered@.lemma_filter_contains_rev(keep, address);
        let i = choose|i: int| 0 <= i < kept.len() && kept[i] == address;
        ordered@.lemma_filter_pred(keep, i);
    }
    if ordered@.contains(address) && keep(address) {
        let i = choose|i: int| 0 <= i < ordered@.len() && ordered@[i] == address;
        ordered@.lemma_filter_contains(keep, i);
    }
}

} // verus!
