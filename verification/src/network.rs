//! Wi-Fi networks: what a scan shows, and what NetworkManager is asked for.

use vstd::prelude::*;

use crate::text::chars::same;
use crate::text::ospath::{from_utf8_lossy, lossy_text};

verus! {

/// One scanned access point.
#[derive(Debug, Clone, PartialEq)]
pub struct WifiNet {
    pub ssid: String,
    pub strength: u8,
    pub secure: bool,
    pub active: bool,
}

/// A [`WifiNet`] as a mathematical value.
#[verifier::ext_equal]
pub struct WifiView {
    pub ssid: Seq<char>,
    pub strength: u8,
    pub secure: bool,
    pub active: bool,
}

impl View for WifiNet {
    type V = WifiView;

    open spec fn view(&self) -> WifiView {
        WifiView {
            ssid: self.ssid@,
            strength: self.strength,
            secure: self.secure,
            active: self.active,
        }
    }
}

/// The values of networks.
pub open spec fn wifi_views(nets: Seq<WifiNet>) -> Seq<WifiView> {
    Seq::new(nets.len(), |i: int| nets[i]@)
}

/// State pushed to the UI thread.
#[derive(Debug, Clone)]
pub enum NetEvent {
    Networks(Vec<WifiNet>),
    Enabled(bool),
}

/// Requests from the UI thread.
#[derive(Debug, Clone)]
pub enum NetCommand {
    Scan,
    Toggle,
    Connect { ssid: String, password: String },
}

/// An access point as NetworkManager reports it.
#[derive(Debug)]
pub struct AccessPoint {
    pub ssid: Vec<u8>,
    pub strength: u8,
    pub wpa_flags: u32,
    pub rsn_flags: u32,
    pub active: bool,
}

// ---------------------------------------------------------------------------
// Scanning

/// The networks of the access points that have a name.
pub open spec fn named_points(points: Seq<AccessPoint>) -> Seq<WifiView>
    decreases points.len(),
{
    if points.len() == 0 {
        seq![]
    } else {
        let rest = named_points(points.drop_last());
        let p = points.last();
        if p.ssid@.len() == 0 {
            rest
        } else {
            rest.push(
                WifiView {
                    ssid: lossy_text(p.ssid@),
                    strength: p.strength,
                    secure: p.wpa_flags != 0 || p.rsn_flags != 0,
                    active: p.active,
                },
            )
        }
    }
}

/// The index of the network with a name, or the number of networks.
pub open spec fn net_index(nets: Seq<WifiView>, ssid: Seq<char>) -> int
    decreases nets.len(),
{
    if nets.len() == 0 || nets[0].ssid == ssid {
        0
    } else {
        1 + net_index(nets.drop_first(), ssid)
    }
}

/// Two access points of one network: as strong as the stronger, secure or active
/// if either is.
pub open spec fn merged(a: WifiView, b: WifiView) -> WifiView {
    WifiView {
        ssid: a.ssid,
        strength: if b.strength > a.strength {
            b.strength
        } else {
            a.strength
        },
        secure: a.secure || b.secure,
        active: a.active || b.active,
    }
}

/// The networks with one more access point: merged into the network of its name,
/// or as a new network.
pub open spec fn with_point(nets: Seq<WifiView>, p: WifiView) -> Seq<WifiView> {
    let i = net_index(nets, p.ssid);
    if i < nets.len() {
        nets.update(i, merged(nets[i], p))
    } else {
        nets.push(p)
    }
}

/// The networks of access points, one for each name, in the order in which the
/// names first come.
pub open spec fn deduplicated(points: Seq<WifiView>) -> Seq<WifiView>
    decreases points.len(),
{
    if points.len() == 0 {
        seq![]
    } else {
        with_point(deduplicated(points.drop_last()), points.last())
    }
}

/// The network `a` is shown before the network `b`: the active one first, then
/// the stronger.
pub open spec fn ranks_before(a: WifiView, b: WifiView) -> bool {
    if a.active != b.active {
        a.active
    } else {
        a.strength > b.strength
    }
}

/// The networks with `net` put in before the first that it ranks before.
pub open spec fn inserted(nets: Seq<WifiView>, net: WifiView) -> Seq<WifiView>
    decreases nets.len(),
{
    if nets.len() > 0 && ranks_before(net, nets.last()) {
        inserted(nets.drop_last(), net).push(nets.last())
    } else {
        nets.push(net)
    }
}

/// The networks in the order in which they are shown; those of equal rank keep
/// their order.
pub open spec fn ranked(nets: Seq<WifiView>) -> Seq<WifiView>
    decreases nets.len(),
{
    if nets.len() == 0 {
        seq![]
    } else {
        inserted(ranked(nets.drop_last()), nets.last())
    }
}

/// The index of a network is the first one with its name.
proof fn lemma_net_index(nets: Seq<WifiView>, ssid: Seq<char>, i: int)
    requires
        0 <= i <= nets.len(),
        forall|k: int| 0 <= k < i ==> (#[trigger] nets[k]).ssid != ssid,
        i < nets.len() ==> nets[i].ssid == ssid,
    ensures
        net_index(nets, ssid) == i,
    decreases i,
{
    if i > 0 {
        let rest = nets.drop_first();
        assert(nets[0].ssid != ssid);
        assert forall|k: int| 0 <= k < i - 1 implies (#[trigger] rest[k]).ssid != ssid by {
            assert(rest[k] == nets[k + 1]);
        }
        lemma_net_index(rest, ssid, i - 1);
    }
}

/// The index of the network with a name.
fn find_net(nets: &Vec<WifiNet>, ssid: &str) -> (r: usize)
    ensures
        r == net_index(wifi_views(nets@), ssid@),
        r <= nets.len(),
{
    let ghost all = wifi_views(nets@);
    let mut i: usize = 0;
    while i < nets.len() && !same(nets[i].ssid.as_str(), ssid)
        invariant
            all == wifi_views(nets@),
            i <= nets.len(),
            forall|k: int| 0 <= k < i ==> (#[trigger] all[k]).ssid != ssid@,
        decreases nets.len() - i,
    {
        assert(all[i as int] == nets@[i as int]@);
        i += 1;
    }
    proof {
        if i < nets.len() {
            assert(all[i as int] == nets@[i as int]@);
        }
        lemma_net_index(all, ssid@, i as int);
    }
    i
}

/// De-duplicate by SSID, keeping the strongest.
fn deduplicate(points: Vec<WifiNet>) -> (r: Vec<WifiNet>)
    ensures
        wifi_views(r@) == deduplicated(wifi_views(points@)),
{
    let ghost all = wifi_views(points@);
    let ghost given = points@;
    let mut nets: Vec<WifiNet> = Vec::new();
    assert(wifi_views(nets@) =~= deduplicated(all.take(0)));
    for p in it: points.into_iter()
        invariant
            it.seq() == given,
            all == wifi_views(given),
            wifi_views(nets@) == deduplicated(all.take(it.index() as int)),
    {
        let ghost n = it.index() as int;
        let ghost before = wifi_views(nets@);
        proof {
            assert(all.take(n + 1).drop_last() =~= all.take(n));
            assert(all.take(n + 1).last() == all[n]);
            assert(all[n] == p@);
        }
        let i = find_net(&nets, p.ssid.as_str());
        if i < nets.len() {
            assert(before[i as int] == nets@[i as int]@);
            if p.strength > nets[i].strength {
                nets[i].strength = p.strength;
            }
            if p.active {
                nets[i].active = true;
            }
            if p.secure {
                nets[i].secure = true;
            }
            assert(wifi_views(nets@) =~= before.update(i as int, merged(before[i as int], p@)));
        } else {
            nets.push(p);
            assert(wifi_views(nets@) =~= before.push(p@));
        }
    }
    assert(all.take(all.len() as int) =~= all);
    nets
}

/// Inserting splits the networks at the first one that is outranked.
proof fn lemma_inserted(nets: Seq<WifiView>, net: WifiView, pos: int)
    requires
        0 <= pos <= nets.len(),
        pos > 0 ==> !ranks_before(net, nets[pos - 1]),
        forall|k: int| pos <= k < nets.len() ==> ranks_before(net, #[trigger] nets[k]),
    ensures
        inserted(nets, net) == nets.insert(pos, net),
    decreases nets.len() - pos,
{
    if pos < nets.len() {
        assert(ranks_before(net, nets[nets.len() - 1]));
        lemma_inserted(nets.drop_last(), net, pos);
        assert(inserted(nets, net) =~= nets.insert(pos, net));
    } else {
        assert(nets.push(net) =~= nets.insert(pos, net));
    }
}

/// Whether the network `a` is shown before the network `b`.
fn outranks(a: &WifiNet, b: &WifiNet) -> (r: bool)
    ensures
        r == ranks_before(a@, b@),
{
    if a.active != b.active {
        a.active
    } else {
        a.strength > b.strength
    }
}

/// Sort the networks: the active one first, then the stronger.
fn rank(nets: Vec<WifiNet>) -> (r: Vec<WifiNet>)
    ensures
        wifi_views(r@) == ranked(wifi_views(nets@)),
{
    let ghost given = nets@;
    let ghost all = wifi_views(given);
    let mut out: Vec<WifiNet> = Vec::new();
    assert(wifi_views(out@) =~= ranked(all.take(0)));
    for net in it: nets.into_iter()
        invariant
            it.seq() == given,
            all == wifi_views(given),
            wifi_views(out@) == ranked(all.take(it.index() as int)),
    {
        let ghost n = it.index() as int;
        let ghost before = wifi_views(out@);
        proof {
            assert(all.take(n + 1).drop_last() =~= all.take(n));
            assert(all.take(n + 1).last() == all[n]);
            assert(all[n] == net@);
        }
        let mut pos = out.len();
        while pos > 0 && outranks(&net, &out[pos - 1])
            invariant
                pos <= out.len(),
                before == wifi_views(out@),
                forall|k: int| pos <= k < out.len() ==> ranks_before(net@, #[trigger] before[k]),
            decreases pos,
        {
            assert(before[pos - 1] == out@[pos - 1]@);
            pos -= 1;
        }
        proof {
            if pos > 0 {
                assert(before[pos - 1] == out@[pos - 1]@);
            }
            lemma_inserted(before, net@, pos as int);
        }
        out.insert(pos, net);
        assert(wifi_views(out@) =~= before.insert(pos as int, net@));
    }
    assert(all.take(all.len() as int) =~= all);
    out
}

/// The networks that access points make up: one for each name, as strong as its
/// strongest access point, the active one first and then by strength.
pub fn merge_networks(points: Vec<WifiNet>) -> (r: Vec<WifiNet>)
    ensures
        wifi_views(r@) == ranked(deduplicated(wifi_views(points@))),
{
    rank(deduplicate(points))
}

/// The networks that a scan shows: hidden access points are left out.
pub fn scan(points: &Vec<AccessPoint>) -> (r: Vec<WifiNet>)
    ensures
        wifi_views(r@) == ranked(deduplicated(named_points(points@))),
{
    let mut nets: Vec<WifiNet> = Vec::new();
    assert(wifi_views(nets@) =~= named_points(points@.take(0)));
    for i in 0..points.len()
        invariant
            wifi_views(nets@) == named_points(points@.take(i as int)),
    {
        let ghost before = wifi_views(nets@);
        proof {
            assert(points@.take(i + 1).drop_last() =~= points@.take(i as int));
            assert(points@.take(i + 1).last() == points@[i as int]);
        }
        let p = &points[i];
        if p.ssid.len() > 0 {
            let net = WifiNet {
                ssid: from_utf8_lossy(p.ssid.as_slice()),
                strength: p.strength,
                secure: p.wpa_flags != 0 || p.rsn_flags != 0,
                active: p.active,
            };
            nets.push(net);
            assert(wifi_views(nets@) =~= before.push(net@));
        }
    }
    assert(points@.take(points@.len() as int) =~= points@);
    merge_networks(nets)
}

// ---------------------------------------------------------------------------
// Commands

/// What NetworkManager's device type 2 stands for.
pub const DEVICE_TYPE_WIFI: u32 = 2;

/// The first Wi-Fi device among devices of the given types.
pub fn wifi_device(types: &Vec<u32>) -> (r: Option<usize>)
    ensures
        match r {
            Some(i) => i < types.len() && types@[i as int] == DEVICE_TYPE_WIFI && forall|k: int|
                0 <= k < i ==> types@[k] != DEVICE_TYPE_WIFI,
            None => forall|k: int| 0 <= k < types.len() ==> types@[k] != DEVICE_TYPE_WIFI,
        },
{
    for i in 0..types.len()
        invariant
            forall|k: int| 0 <= k < i ==> types@[k] != DEVICE_TYPE_WIFI,
    {
        if types[i] == DEVICE_TYPE_WIFI {
            return Some(i);
        }
    }
    None
}

/// A step of serving a command.
#[derive(Debug, PartialEq)]
pub enum NetStep {
    /// Ask the device to scan.
    RequestScan,
    /// Read the access points and push the networks, if they could be read.
    PushNetworks,
    /// Switch the radio and push its state.
    SwitchRadio(bool),
    /// Add and activate a connection.
    Connect { ssid: String, password: String },
}

/// The steps that serve a command, when the radio is on or off.
pub fn serve(command: NetCommand, radio_on: bool) -> (r: Vec<NetStep>)
    ensures
        r@ == match command {
            NetCommand::Scan => seq![NetStep::RequestScan, NetStep::PushNetworks],
            NetCommand::Toggle => seq![NetStep::SwitchRadio(!radio_on)],
            NetCommand::Connect { ssid, password } => seq![
                NetStep::Connect { ssid, password },
                NetStep::PushNetworks,
            ],
        },
{
    let mut steps: Vec<NetStep> = Vec::new();
    match command {
        NetCommand::Scan => {
            steps.push(NetStep::RequestScan);
            steps.push(NetStep::PushNetworks);
        },
        NetCommand::Toggle => {
            steps.push(NetStep::SwitchRadio(!radio_on));
        },
        NetCommand::Connect { ssid, password } => {
            steps.push(NetStep::Connect { ssid, password });
            steps.push(NetStep::PushNetworks);
        },
    }
    steps
}

/// A value of a connection setting.
#[derive(Debug, PartialEq)]
pub enum SettingValue {
    Text(String),
    Bytes(Vec<u8>),
}

/// A setting of a connection: its section, its key and its value.
#[derive(Debug, PartialEq)]
pub struct Setting {
    pub section: &'static str,
    pub key: &'static str,
    pub value: SettingValue,
}

/// A [`Setting`] as a mathematical value.
pub enum SettingView {
    Text(Seq<char>, Seq<char>, Seq<char>),
    Bytes(Seq<char>, Seq<char>, Seq<u8>),
}

impl View for Setting {
    type V = SettingView;

    open spec fn view(&self) -> SettingView {
        match self.value {
            SettingValue::Text(t) => SettingView::Text(self.section@, self.key@, t@),
            SettingValue::Bytes(b) => SettingView::Bytes(self.section@, self.key@, b@),
        }
    }
}

/// The values of settings.
pub open spec fn setting_views(settings: Seq<Setting>) -> Seq<SettingView> {
    Seq::new(settings.len(), |i: int| settings[i]@)
}

/// The settings of a connection: WPA-PSK when a password is given, open
/// otherwise.
pub open spec fn connection(ssid: Seq<char>, password: Seq<char>) -> Seq<SettingView> {
    seq![
        SettingView::Text("connection"@, "id"@, ssid),
        SettingView::Text("connection"@, "type"@, "802-11-wireless"@),
        SettingView::Bytes("802-11-wireless"@, "ssid"@, vstd::utf8::encode_utf8(ssid)),
        SettingView::Text("802-11-wireless"@, "mode"@, "infrastructure"@),
    ] + if password.len() > 0 {
        seq![
            SettingView::Text("802-11-wireless-security"@, "key-mgmt"@, "wpa-psk"@),
            SettingView::Text("802-11-wireless-security"@, "psk"@, password),
        ]
    } else {
        seq![]
    }
}

/// The settings of a Wi-Fi connection for `ssid` (WPA-PSK when a password is
/// given, open otherwise).
pub fn connect_settings(ssid: &str, password: &str) -> (r: Vec<Setting>)
    ensures
        setting_views(r@) == connection(ssid@, password@),
{
    let wireless = "802-11-wireless";
    let mut out: Vec<Setting> = Vec::new();
    out.push(
        Setting {
            section: "connection",
            key: "id",
            value: SettingValue::Text(ssid.to_string()),
        },
    );
    out.push(
        Setting {
            section: "connection",
            key: "type",
            value: SettingValue::Text(wireless.to_string()),
        },
    );
    let bytes = vstd::slice::slice_to_vec(ssid.as_bytes());
    out.push(Setting { section: wireless, key: "ssid", value: SettingValue::Bytes(bytes) });
    out.push(
        Setting {
            section: wireless,
            key: "mode",
            value: SettingValue::Text("infrastructure".to_string()),
        },
    );
    if !password.is_empty() {
        let security = "802-11-wireless-security";
        out.push(
            Setting {
                section: security,
                key: "key-mgmt",
                value: SettingValue::Text("wpa-psk".to_string()),
            },
        );
        out.push(
            Setting {
                section: security,
                key: "psk",
                value: SettingValue::Text(password.to_string()),
            },
        );
    }
    assert(setting_views(out@) =~= connection(ssid@, password@));
    out
}

// ---------------------------------------------------------------------------
// What the panel shows

/// The Wi-Fi state that the panel shows.
#[derive(Debug)]
pub struct WifiPanel {
    pub enabled: bool,
    pub networks: Vec<WifiNet>,
}

impl WifiPanel {
    /// Apply an update from NetworkManager.
    pub fn apply_net_event(&mut self, event: NetEvent)
        ensures
            match event {
                NetEvent::Enabled(on) => final(self).enabled == on && final(self).networks
                    == old(self).networks,
                NetEvent::Networks(nets) => final(self).enabled == old(self).enabled
                    && final(self).networks == nets,
            },
    {
        match event {
            NetEvent::Enabled(on) => {
                self.enabled = on;
            },
            NetEvent::Networks(nets) => {
                self.networks = nets;
            },
        }
    }
}

// ---------------------------------------------------------------------------
// Laws

/// Each name is shown once.
pub open spec fn names_distinct(nets: Seq<WifiView>) -> bool {
    forall|i: int, j: int|
        0 <= i < j < nets.len() ==> (#[trigger] nets[i]).ssid != (#[trigger] nets[j]).ssid
}

/// A name that comes up in the networks.
proof fn lemma_index_found(nets: Seq<WifiView>, ssid: Seq<char>)
    ensures
        0 <= net_index(nets, ssid) <= nets.len(),
        net_index(nets, ssid) < nets.len() ==> nets[net_index(nets, ssid)].ssid == ssid,
        forall|k: int| 0 <= k < net_index(nets, ssid) ==> (#[trigger] nets[k]).ssid != ssid,
    decreases nets.len(),
{
    if nets.len() > 0 && nets[0].ssid != ssid {
        let rest = nets.drop_first();
        lemma_index_found(rest, ssid);
        assert forall|k: int| 0 <= k < net_index(nets, ssid) implies (#[trigger] nets[k]).ssid
            != ssid by {
            if k > 0 {
                assert(nets[k] == rest[k - 1]);
            }
        }
    }
}

/// Whatever is scanned, each network is shown once, and every access point's name
/// is among them, at least as strong and as active.
pub proof fn law_each_network_is_shown_once(points: Seq<WifiView>)
    ensures
        names_distinct(deduplicated(points)),
        forall|k: int|
            0 <= k < points.len() ==> exists|i: int|
                0 <= i < deduplicated(points).len() && (#[trigger] deduplicated(points)[i]).ssid
                    == (#[trigger] points[k]).ssid && deduplicated(points)[i].strength
                    >= points[k].strength && (points[k].active ==> deduplicated(points)[i].active)
                    && (points[k].secure ==> deduplicated(points)[i].secure),
    decreases points.len(),
{
    if points.len() > 0 {
        let less = points.drop_last();
        let p = points.last();
        law_each_network_is_shown_once(less);
        let before = deduplicated(less);
        let after = deduplicated(points);
        lemma_index_found(before, p.ssid);
        let at = net_index(before, p.ssid);
        assert(after[at].ssid == p.ssid);
        assert forall|k: int| 0 <= k < points.len() implies exists|i: int|
            0 <= i < after.len() && (#[trigger] after[i]).ssid == (#[trigger] points[k]).ssid
                && after[i].strength >= points[k].strength && (points[k].active
                ==> after[i].active) && (points[k].secure ==> after[i].secure) by {
            if k < less.len() {
                assert(points[k] == less[k]);
                let i = choose|i: int|
                    0 <= i < before.len() && (#[trigger] before[i]).ssid == less[k].ssid
                        && before[i].strength >= less[k].strength && (less[k].active
                        ==> before[i].active) && (less[k].secure ==> before[i].secure);
                assert(after[i].ssid == points[k].ssid);
            } else {
                assert(after[at].ssid == points[k].ssid);
            }
        }
        assert(names_distinct(after)) by {
            assert forall|i: int, j: int| 0 <= i < j < after.len() implies (#[trigger] after[i]).ssid
                != (#[trigger] after[j]).ssid by {
                if at < before.len() {
                    assert(after[i].ssid == before[i].ssid && after[j].ssid == before[j].ssid);
                } else {
                    assert(after[i] == before[i]);
                    if j < before.len() {
                        assert(after[j] == before[j]);
                    }
                }
            }
        }
    }
}

/// Networks are in the order in which they are shown when none is outranked by a
/// later one.
pub open spec fn in_rank_order(nets: Seq<WifiView>) -> bool {
    forall|i: int, j: int|
        0 <= i < j < nets.len() ==> !ranks_before(#[trigger] nets[j], #[trigger] nets[i])
}

/// Putting a network in keeps the order.
proof fn lemma_inserted_order(nets: Seq<WifiView>, net: WifiView)
    requires
        in_rank_order(nets),
    ensures
        in_rank_order(inserted(nets, net)),
        inserted(nets, net).len() == nets.len() + 1,
        inserted(nets, net).to_multiset() == nets.to_multiset().insert(net),
    decreases nets.len(),
{
    broadcast use vstd::seq_lib::group_to_multiset_ensures;

    let out = inserted(nets, net);
    if nets.len() > 0 && ranks_before(net, nets.last()) {
        let less = nets.drop_last();
        assert(in_rank_order(less)) by {
            assert forall|i: int, j: int| 0 <= i < j < less.len() implies !ranks_before(
                #[trigger] less[j],
                #[trigger] less[i],
            ) by {
                assert(!ranks_before(nets[j], nets[i]));
            }
        }
        lemma_inserted_order(less, net);
        let mid = inserted(less, net);
        lemma_inserted_from(less, net);
        assert(out == mid.push(nets.last()));
        assert(nets =~= less.push(nets.last()));
        assert(out.to_multiset() =~= nets.to_multiset().insert(net));
        assert forall|i: int, j: int| 0 <= i < j < out.len() implies !ranks_before(
            #[trigger] out[j],
            #[trigger] out[i],
        ) by {
            assert(out[i] == mid[i]);
            if j < mid.len() {
                assert(out[j] == mid[j]);
            } else {
                // The last network against one before it.
                if mid[i] != net {
                    let k = choose|k: int| 0 <= k < less.len() && less[k] == mid[i];
                    assert(!ranks_before(nets[nets.len() - 1], nets[k]));
                }
            }
        }
    } else {
        assert(out == nets.push(net));
        assert forall|i: int, j: int| 0 <= i < j < out.len() implies !ranks_before(
            #[trigger] out[j],
            #[trigger] out[i],
        ) by {
            if j < nets.len() {
                assert(out[i] == nets[i] && out[j] == nets[j]);
            } else if i < nets.len() - 1 {
                assert(!ranks_before(nets[nets.len() - 1], nets[i]));
            }
        }
    }
}

/// What comes out of putting a network in was in before, or is that network.
proof fn lemma_inserted_from(nets: Seq<WifiView>, net: WifiView)
    ensures
        forall|i: int|
            0 <= i < inserted(nets, net).len() ==> (#[trigger] inserted(nets, net)[i]) == net
                || nets.contains(inserted(nets, net)[i]),
    decreases nets.len(),
{
    let out = inserted(nets, net);
    if nets.len() > 0 && ranks_before(net, nets.last()) {
        let less = nets.drop_last();
        lemma_inserted_from(less, net);
        let mid = inserted(less, net);
        assert forall|i: int| 0 <= i < out.len() implies (#[trigger] out[i]) == net
            || nets.contains(out[i]) by {
            if i < mid.len() {
                assert(out[i] == mid[i]);
                if mid[i] != net {
                    let k = choose|k: int| 0 <= k < less.len() && less[k] == mid[i];
                    assert(nets[k] == mid[i]);
                }
            } else {
                assert(nets[nets.len() - 1] == out[i]);
            }
        }
    } else {
        assert forall|i: int| 0 <= i < out.len() implies (#[trigger] out[i]) == net
            || nets.contains(out[i]) by {
            if i < nets.len() {
                assert(nets[i] == out[i]);
            }
        }
    }
}

/// The networks are shown with the active one first and then by strength, and
/// sorting neither drops nor adds one.
pub proof fn law_networks_are_shown_by_rank(nets: Seq<WifiView>)
    ensures
        in_rank_order(ranked(nets)),
        ranked(nets).len() == nets.len(),
        ranked(nets).to_multiset() == nets.to_multiset(),
    decreases nets.len(),
{
    broadcast use vstd::seq_lib::group_to_multiset_ensures;

    if nets.len() > 0 {
        let less = nets.drop_last();
        law_networks_are_shown_by_rank(less);
        lemma_inserted_order(ranked(less), nets.last());
        assert(nets =~= less.push(nets.last()));
    }
}

/// Every network that is shown is that of some access point, as strong as the
/// strongest of that name; it is active, or secure, exactly if one of them is.
pub proof fn law_networks_sum_up_their_points(points: Seq<WifiView>, i: int)
    requires
        0 <= i < deduplicated(points).len(),
    ensures
        ({
            let net = deduplicated(points)[i];
            &&& exists|k: int|
                0 <= k < points.len() && (#[trigger] points[k]).ssid == net.ssid
                    && points[k].strength == net.strength
            &&& forall|k: int|
                0 <= k < points.len() && (#[trigger] points[k]).ssid == net.ssid
                    ==> points[k].strength <= net.strength
            &&& net.active <==> exists|k: int|
                0 <= k < points.len() && (#[trigger] points[k]).ssid == net.ssid
                    && points[k].active
            &&& net.secure <==> exists|k: int|
                0 <= k < points.len() && (#[trigger] points[k]).ssid == net.ssid
                    && points[k].secure
        }),
    decreases points.len(),
{
    law_each_network_is_shown_once(points);
    let net = deduplicated(points)[i];
    let last = points.len() - 1;
    let less = points.drop_last();
    let p = points.last();
    let before = deduplicated(less);
    let after = deduplicated(points);
    lemma_index_found(before, p.ssid);
    let at = net_index(before, p.ssid);
    assert(p == points[last]);
    assert forall|k: int| 0 <= k < last implies (#[trigger] points[k]) == less[k] by {}
    assert forall|k: int|
        0 <= k < points.len() && (#[trigger] points[k]).ssid == net.ssid implies points[k].strength
        <= net.strength && (points[k].active ==> net.active) && (points[k].secure
        ==> net.secure) by {
        let j = choose|j: int|
            0 <= j < after.len() && (#[trigger] after[j]).ssid == points[k].ssid
                && after[j].strength >= points[k].strength && (points[k].active
                ==> after[j].active) && (points[k].secure ==> after[j].secure);
        if i < j {
            assert(after[i].ssid != after[j].ssid);
        } else if j < i {
            assert(after[j].ssid != after[i].ssid);
        }
    }
    if i < before.len() {
        law_networks_sum_up_their_points(less, i);
        let old = before[i];
        let k = choose|k: int|
            0 <= k < less.len() && (#[trigger] less[k]).ssid == old.ssid && less[k].strength
                == old.strength;
        assert(points[k] == less[k]);
        if old.active {
            let k = choose|k: int|
                0 <= k < less.len() && (#[trigger] less[k]).ssid == old.ssid && less[k].active;
            assert(points[k] == less[k]);
        }
        if old.secure {
            let k = choose|k: int|
                0 <= k < less.len() && (#[trigger] less[k]).ssid == old.ssid && less[k].secure;
            assert(points[k] == less[k]);
        }
        if i != at {
            assert(after[i] == before[i]);
        }
    } else {
        assert(after[i] == p);
    }
}

/// The active network is shown first, and the others, or those that are all
/// active, from the strongest to the weakest.
pub proof fn law_ranks_are_by_strength(nets: Seq<WifiView>, i: int, j: int)
    requires
        0 <= i < j < ranked(nets).len(),
    ensures
        ranked(nets)[j].active ==> ranked(nets)[i].active,
        ranked(nets)[i].active == ranked(nets)[j].active ==> ranked(nets)[i].strength >= ranked(
            nets,
        )[j].strength,
{
    law_networks_are_shown_by_rank(nets);
    assert(!ranks_before(ranked(nets)[j], ranked(nets)[i]));
}

/// Exactly the access points that have a name count, each with its strength. It
/// needs a password if any of its security flags is set.
pub proof fn law_named_points_count(points: Seq<AccessPoint>) -> (rows: Seq<int>)
    ensures
        ({
            let out = named_points(points);
            &&& rows.len() == out.len()
            &&& forall|a: int, b: int| 0 <= a < b < rows.len() ==> rows[a] < rows[b]
            &&& forall|k: int|
                0 <= k < rows.len() ==> {
                    let p = points[#[trigger] rows[k]];
                    &&& 0 <= rows[k] < points.len()
                    &&& p.ssid@.len() > 0
                    &&& out[k].ssid == lossy_text(p.ssid@)
                    &&& out[k].strength == p.strength
                    &&& out[k].active == p.active
                    &&& out[k].secure <==> !(p.wpa_flags == 0 && p.rsn_flags == 0)
                }
            &&& forall|i: int|
                0 <= i < points.len() && (#[trigger] points[i]).ssid@.len() > 0 ==> rows.contains(i)
        }),
    decreases points.len(),
{
    if points.len() == 0 {
        seq![]
    } else {
        let last = points.len() - 1;
        let less = points.drop_last();
        let before = law_named_points_count(less);
        let rows = if points[last].ssid@.len() == 0 {
            before
        } else {
            before.push(last)
        };
        assert(points.last() == points[last]);
        assert forall|k: int| 0 <= k < before.len() implies points[#[trigger] before[k]]
            == less[before[k]] by {}
        assert forall|i: int|
            0 <= i < points.len() && (#[trigger] points[i]).ssid@.len() > 0 implies rows.contains(
            i,
        ) by {
            if i < last {
                assert(less[i] == points[i]);
                let k = choose|k: int| 0 <= k < before.len() && before[k] == i;
                assert(rows[k] == i);
            } else {
                assert(rows[before.len() as int] == i);
            }
        }
        rows
    }
}

/// A connection is named after its network and holds the network's bytes; it holds
/// the password, as a WPA key, exactly if there is one.
pub proof fn law_connections_hold_the_password(ssid: Seq<char>, password: Seq<char>)
    ensures
        ({
            let c = connection(ssid, password);
            &&& c[0] == SettingView::Text("connection"@, "id"@, ssid)
            &&& c[1] == SettingView::Text("connection"@, "type"@, "802-11-wireless"@)
            &&& c[2] == SettingView::Bytes(
                "802-11-wireless"@,
                "ssid"@,
                vstd::utf8::encode_utf8(ssid),
            )
            &&& c[3] == SettingView::Text("802-11-wireless"@, "mode"@, "infrastructure"@)
            &&& password.len() == 0 ==> c.len() == 4
            &&& password.len() > 0 ==> {
                &&& c.len() == 6
                &&& c[4] == SettingView::Text("802-11-wireless-security"@, "key-mgmt"@, "wpa-psk"@)
                &&& c[5] == SettingView::Text("802-11-wireless-security"@, "psk"@, password)
            }
        }),
        DEVICE_TYPE_WIFI == 2,
{
}

/// A scan is asked for before its networks are shown, the radio is switched to what
/// it was not, and a connection is made to the network that was named.
pub proof fn law_commands_are_served(command: NetCommand, radio_on: bool, r: Vec<NetStep>)
    requires
        call_ensures(serve, (command, radio_on), r),
    ensures
        command is Scan ==> r.len() == 2 && r@[0] is RequestScan && r@[1] is PushNetworks,
        command is Toggle ==> r.len() == 1 && r@[0] == NetStep::SwitchRadio(!radio_on),
        command matches NetCommand::Connect { ssid, password } ==> r.len() == 2 && r@[0] == (
        NetStep::Connect { ssid, password }) && r@[1] is PushNetworks,
{
}

} // verus!
