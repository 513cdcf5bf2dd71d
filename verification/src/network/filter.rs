use vstd::prelude::*;

verus! {

/// Kind of a network interface, as the operating system reports it.
#[derive(Clone, Copy, Debug, PartialEq, Eq, Structural)]
pub enum InterfaceType {
    Unknown,
    Ethernet,
    TokenRing,
    Fddi,
    BasicIsdn,
    PrimaryIsdn,
    Ppp,
    Loopback,
    Ethernet3Megabit,
    Slip,
    Atm,
    GenericModem,
    ProprietaryVirtual,
    FastEthernetT,
    Isdn,
    FastEthernetFx,
    Wireless80211,
    AsymmetricDsl,
    RateAdaptDsl,
    SymmetricDsl,
    VeryHighSpeedDsl,
    IPOverAtm,
    GigabitEthernet,
    Tunnel,
    MultiRateSymmetricDsl,
    HighPerformanceSerialBus,
    Wman,
    Wwan,
    Wwanpp,
    Wwanpp2,
    Bridge,
    Can,
    PeerToPeerWireless,
    UnknownWithValue(u32),
}

/// What the monitor knows of one network interface: its index and name, its
/// kind, and how many IPv4 and IPv6 addresses it has.
#[derive(Debug)]
pub struct InterfaceInfo {
    pub index: u32,
    pub name: String,
    pub if_type: InterfaceType,
    pub ipv4_count: usize,
    pub ipv6_count: usize,
}

impl Clone for InterfaceInfo {
    fn clone(&self) -> (copy: Self)
        ensures
            copy == *self,
    {
        InterfaceInfo {
            index: self.index,
            name: self.name.clone(),
            if_type: self.if_type,
            ipv4_count: self.ipv4_count,
            ipv6_count: self.ipv6_count,
        }
    }
}

/// Kinds that name a physical network adapter.
pub open spec fn is_physical_type(t: InterfaceType) -> bool {
    ||| t is Ethernet
    ||| t is Wireless80211
    ||| t is GigabitEthernet
    ||| t is FastEthernetT
    ||| t is FastEthernetFx
    ||| t is Wwan
    ||| t is Wwanpp
    ||| t is Wwanpp2
}

/// The interface has at least one IPv4 or IPv6 address.
pub open spec fn has_addresses(iface: InterfaceInfo) -> bool {
    iface.ipv4_count > 0 || iface.ipv6_count > 0
}

/// The filter's rule: never loopback or tunnel interfaces, never proprietary
/// virtual ones without addresses; otherwise physical adapters and any
/// interface that has an address.
pub open spec fn is_relevant(iface: InterfaceInfo) -> bool {
    &&& !(iface.if_type is Loopback)
    &&& !(iface.if_type is Tunnel)
    &&& !(iface.if_type is ProprietaryVirtual && !has_addresses(iface))
    &&& (is_physical_type(iface.if_type) || has_addresses(iface))
}

/// The interfaces of `s` that the rule keeps, in their order.
pub open spec fn relevant_interfaces(s: Seq<InterfaceInfo>) -> Seq<InterfaceInfo> {
    s.filter(|iface: InterfaceInfo| is_relevant(iface))
}

/// Decides whether one interface is shown in the physical-interfaces view.
pub fn is_relevant_interface(iface: &InterfaceInfo) -> (keep: bool)
    ensures
        keep == is_relevant(*iface),
{
    // Exclude loopback interfaces
    if matches!(iface.if_type, InterfaceType::Loopback) {
        return false;
    }
    // Exclude tunnel interfaces
    if matches!(iface.if_type, InterfaceType::Tunnel) {
        return false;
    }
    // Exclude proprietary virtual interfaces without IPs
    if matches!(iface.if_type, InterfaceType::ProprietaryVirtual) && iface.ipv4_count == 0
        && iface.ipv6_count == 0 {
        return false;
    }
    // Include physical network interfaces
    if matches!(
        iface.if_type,
        InterfaceType::Ethernet | InterfaceType::Wireless80211 | InterfaceType::GigabitEthernet
            | InterfaceType::FastEthernetT | InterfaceType::FastEthernetFx | InterfaceType::Wwan
            | InterfaceType::Wwanpp | InterfaceType::Wwanpp2
    ) {
        return true;
    }
    // Include any interface that has IP addresses (is actually in use)
    iface.ipv4_count != 0 || iface.ipv6_count != 0
}

/// Filter interfaces to show only relevant physical and active interfaces.
pub fn filter_interfaces(interfaces: &[InterfaceInfo]) -> (kept: Vec<InterfaceInfo>)
    ensures
        kept@ == relevant_interfaces(interfaces@),
{
    let mut kept: Vec<InterfaceInfo> = Vec::new();
    let n = interfaces.len();
    for i in 0..n
        invariant
            n == interfaces@.len(),
            kept@ == relevant_interfaces(interfaces@.take(i as int)),
    {
        proof {
            reveal(Seq::filter);
            assert(interfaces@.take(i + 1).drop_last() =~= interfaces@.take(i as int));
        }
        if is_relevant_interface(&interfaces[i]) {
            kept.push(interfaces[i].clone());
        }
    }
    proof {
        assert(interfaces@.take(n as int) =~= interfaces@);
    }
    kept
}

/// Filtering keeps exactly the relevant interfaces: everything it returns
/// satisfies the rule (so no loopback or tunnel interface, and no
/// proprietary virtual one without addresses), and every relevant input
/// interface is returned. The result is never longer than the input.
pub proof fn lemma_filter_keeps_exactly_relevant(s: Seq<InterfaceInfo>)
    ensures
        relevant_interfaces(s).len() <= s.len(),
        forall|k: int|
            0 <= k < relevant_interfaces(s).len() ==> is_relevant(
                #[trigger] relevant_interfaces(s)[k],
            ),
        forall|k: int|
            0 <= k < s.len() && is_relevant(s[k]) ==> #[trigger] relevant_interfaces(s).contains(
                s[k],
            ),
{
    broadcast use vstd::seq_lib::group_filter_ensures;

    s.lemma_filter_len(|iface: InterfaceInfo| is_relevant(iface));
}

/// Physical adapters are always kept, whatever their addresses: Ethernet
/// (including Gigabit and Fast Ethernet), 802.11 wireless and the wireless
/// WAN kinds (WWAN, and the GSM and CDMA mobile broadband kinds).
pub proof fn lemma_physical_adapters_kept(s: Seq<InterfaceInfo>)
    ensures
        forall|k: int|
            0 <= k < s.len() && {
                let t = (#[trigger] s[k]).if_type;
                ||| t is Ethernet
                ||| t is Wireless80211
                ||| t is GigabitEthernet
                ||| t is FastEthernetT
                ||| t is FastEthernetFx
                ||| t is Wwan
                ||| t is Wwanpp
                ||| t is Wwanpp2
            } ==> is_relevant(s[k]) && relevant_interfaces(s).contains(s[k]),
{
    broadcast use vstd::seq_lib::group_filter_ensures;

}

/// Filtering an already filtered list changes nothing.
pub proof fn lemma_filter_idempotent(s: Seq<InterfaceInfo>)
    ensures
        relevant_interfaces(relevant_interfaces(s)) == relevant_interfaces(s),
    decreases s.len(),
{
    reveal(Seq::filter);
    if s.len() > 0 {
        lemma_filter_idempotent(s.drop_last());
        let f = relevant_interfaces(s.drop_last());
        if is_relevant(s.last()) {
            assert(f.push(s.last()).drop_last() =~= f);
        }
    }
}

} // verus!
