//! The message taxonomy of the bus: participant identities, message kinds,
//! payload types, routing keys and packets.
use crate::time::Timestamp;
use crate::utils::PerfData;
use vstd::prelude::*;

verus! {

broadcast use vstd::std_specs::vec::vec_clone_deep_view_proof;

/// Identity of a bus participant. `All` is the wildcard that matches any
/// single instance; `Other` stands for any remote peer. `Unset` is the
/// reserved placeholder identity.
#[derive(Clone, Copy, PartialEq, Eq, Hash, Debug, Structural)]
pub enum Instance {
    Unset,
    All,
    Other,
    Example,
    Example2,
}

/// The closed enumeration of payload tags: one kind per `Msg` variant.
#[derive(Clone, Copy, PartialEq, Eq, Hash, Debug, Structural)]
pub enum MsgKind {
    Empty,
    SubRequest,
    SubList,
    SetTimeCmd,
    ReinitApp,
    ExampleHk,
    ExampleOutData,
    ExampleCmd,
    DsHk,
    DsOutData,
    DsCmd,
    HsHk,
    HsOutData,
    HsCmd,
    ToHk,
    ToOutData,
    ToCmd,
}

impl DeepView for Instance {
    type V = Instance;

    open spec fn deep_view(&self) -> Instance {
        *self
    }
}

impl DeepView for MsgKind {
    type V = MsgKind;

    open spec fn deep_view(&self) -> MsgKind {
        *self
    }
}

/// Subscription and routing key: for telemetry `instance` is the producer,
/// for commands it is the intended recipient.
#[derive(Clone, Copy, PartialEq, Eq, Hash, Debug, Structural)]
pub struct TargetMsg {
    pub instance: Instance,
    pub msg: MsgKind,
}

impl DeepView for TargetMsg {
    type V = TargetMsg;

    open spec fn deep_view(&self) -> TargetMsg {
        *self
    }
}

impl TargetMsg {
    pub fn new(instance: Instance, msg: MsgKind) -> (r: TargetMsg)
        ensures
            r == (TargetMsg { instance, msg }),
    {
        TargetMsg { instance, msg }
    }
}

/// Identifier of a telemetry set.
pub type TlmSetId = u16;

/// One filtering rule of a telemetry set: a target pattern, a decimation
/// divisor and the running match counter.
#[derive(Clone, Copy, PartialEq, Eq, Hash, Debug, Structural)]
pub struct TlmSetItem {
    pub target: TargetMsg,
    pub decimation: u16,
    pub counter: u16,
}

impl DeepView for TlmSetItem {
    type V = TlmSetItem;

    open spec fn deep_view(&self) -> TlmSetItem {
        *self
    }
}

impl DeepView for PerfData {
    type V = PerfData;

    open spec fn deep_view(&self) -> PerfData {
        *self
    }
}

/// Housekeeping telemetry of the example app.
#[derive(Clone, Copy, PartialEq, Debug, Structural, Eq)]
pub struct ExampleHk {
    pub perf: PerfData,
    pub counter: u32,
}

/// Output telemetry of the example app.
#[derive(Clone, Copy, PartialEq, Debug, Structural, Eq)]
pub struct ExampleOutData {
    pub counter: u32,
}

/// Commands understood by the example app.
#[derive(Clone, Copy, PartialEq, Debug, Structural, Eq)]
pub enum ExampleCmd {
    Noop,
    Reset,
}

/// Housekeeping telemetry of the data-storage app.
#[derive(Clone, Copy, PartialEq, Debug, Structural, Eq)]
pub struct DsHk {
    pub perf: PerfData,
    pub counter: u32,
}

/// Output telemetry of the data-storage app.
#[derive(Clone, Copy, PartialEq, Debug, Structural, Eq)]
pub struct DsOutData {
    pub counter: u32,
    pub bytes_written: u32,
    pub bytes_written_this_cycle: u32,
}

/// Housekeeping telemetry of the housekeeping app.
#[derive(PartialEq, Debug)]
pub struct HsHk {
    pub perf: PerfData,
    pub counter: u32,
    pub cpu_usage: Vec<u8>,
    pub mem_usage: u8,
    pub fs_usage: Vec<u8>,
    pub temps: Vec<i8>,
    pub cmd_counter: u8,
    pub cpu_usage_enabled: bool,
    pub mem_usage_enabled: bool,
    pub fs_usage_enabled: bool,
}

/// Deep view of [`HsHk`].
#[verifier::ext_equal]
pub struct HsHkView {
    pub perf: PerfData,
    pub counter: u32,
    pub cpu_usage: Seq<u8>,
    pub mem_usage: u8,
    pub fs_usage: Seq<u8>,
    pub temps: Seq<i8>,
    pub cmd_counter: u8,
    pub cpu_usage_enabled: bool,
    pub mem_usage_enabled: bool,
    pub fs_usage_enabled: bool,
}

impl DeepView for HsHk {
    type V = HsHkView;

    open spec fn deep_view(&self) -> HsHkView {
        HsHkView {
            perf: self.perf,
            counter: self.counter,
            cpu_usage: self.cpu_usage.deep_view(),
            mem_usage: self.mem_usage,
            fs_usage: self.fs_usage.deep_view(),
            temps: self.temps.deep_view(),
            cmd_counter: self.cmd_counter,
            cpu_usage_enabled: self.cpu_usage_enabled,
            mem_usage_enabled: self.mem_usage_enabled,
            fs_usage_enabled: self.fs_usage_enabled,
        }
    }
}

/// Output telemetry of the housekeeping app.
#[derive(Clone, Copy, PartialEq, Debug, Structural, Eq)]
pub struct HsOutData {
    pub counter: u32,
}

/// Commands understood by the housekeeping app.
#[derive(Clone, Copy, PartialEq, Debug, Structural, Eq)]
pub enum HsCmd {
    Noop,
    Reset,
    WatchdogEnableManual(bool),
    WatchdogEnableAuto(bool),
    WatchdogResumeAuto,
}

/// A telemetry set of the downlink app: filtering rules plus an enable latch.
#[derive(PartialEq, Debug)]
pub struct ToTlmSet {
    pub items: Vec<TlmSetItem>,
    pub id: TlmSetId,
    pub enabled: bool,
}

/// Deep view of [`ToTlmSet`].
#[verifier::ext_equal]
pub struct ToTlmSetView {
    pub items: Seq<TlmSetItem>,
    pub id: TlmSetId,
    pub enabled: bool,
}

impl DeepView for ToTlmSet {
    type V = ToTlmSetView;

    open spec fn deep_view(&self) -> ToTlmSetView {
        ToTlmSetView { items: self.items.deep_view(), id: self.id, enabled: self.enabled }
    }
}

/// Housekeeping telemetry of the downlink app.
#[derive(Clone, Copy, PartialEq, Debug, Structural, Eq)]
pub struct ToHk {
    pub perf: PerfData,
    pub counter: u32,
}

/// Output telemetry of the downlink app.
#[derive(Clone, Copy, PartialEq, Debug, Structural, Eq)]
pub struct ToOutData {
    pub counter: u32,
}

/// Commands understood by the downlink app.
#[derive(PartialEq, Debug)]
pub enum ToCmd {
    Noop,
    Reset,
    AddTlmSet(ToTlmSet),
    RemoveTlmSet(TlmSetId),
    DisableTlmSet(TlmSetId),
    EnablTlmSet(TlmSetId),
}

/// Deep view of [`ToCmd`].
#[verifier::ext_equal]
pub enum ToCmdView {
    Noop,
    Reset,
    AddTlmSet(ToTlmSetView),
    RemoveTlmSet(TlmSetId),
    DisableTlmSet(TlmSetId),
    EnablTlmSet(TlmSetId),
}

impl DeepView for ToCmd {
    type V = ToCmdView;

    open spec fn deep_view(&self) -> ToCmdView {
        match self {
            ToCmd::Noop => ToCmdView::Noop,
            ToCmd::Reset => ToCmdView::Reset,
            ToCmd::AddTlmSet(s) => ToCmdView::AddTlmSet(s.deep_view()),
            ToCmd::RemoveTlmSet(id) => ToCmdView::RemoveTlmSet(*id),
            ToCmd::DisableTlmSet(id) => ToCmdView::DisableTlmSet(*id),
            ToCmd::EnablTlmSet(id) => ToCmdView::EnablTlmSet(*id),
        }
    }
}

/// A telemetry set of the data-storage app: filtering rules, an enable
/// latch and the directory its files are written under.
#[derive(PartialEq, Debug)]
pub struct DsTlmSet {
    pub items: Vec<TlmSetItem>,
    pub id: TlmSetId,
    pub enabled: bool,
    pub path: String,
}

/// Deep view of [`DsTlmSet`].
#[verifier::ext_equal]
pub struct DsTlmSetView {
    pub items: Seq<TlmSetItem>,
    pub id: TlmSetId,
    pub enabled: bool,
    pub path: Seq<char>,
}

impl DeepView for DsTlmSet {
    type V = DsTlmSetView;

    open spec fn deep_view(&self) -> DsTlmSetView {
        DsTlmSetView {
            items: self.items.deep_view(),
            id: self.id,
            enabled: self.enabled,
            path: self.path.deep_view(),
        }
    }
}

/// Commands understood by the data-storage app.
#[derive(PartialEq, Debug)]
pub enum DsCmd {
    Noop,
    Reset,
    CloseAll,
    Close(TlmSetId),
    AddTlmSet(DsTlmSet),
    RemoveTlmSet(TlmSetId),
    DisableTlmSet(TlmSetId),
    EnablTlmSet(TlmSetId),
}

/// Deep view of [`DsCmd`].
#[verifier::ext_equal]
pub enum DsCmdView {
    Noop,
    Reset,
    CloseAll,
    Close(TlmSetId),
    AddTlmSet(DsTlmSetView),
    RemoveTlmSet(TlmSetId),
    DisableTlmSet(TlmSetId),
    EnablTlmSet(TlmSetId),
}

impl DeepView for DsCmd {
    type V = DsCmdView;

    open spec fn deep_view(&self) -> DsCmdView {
        match self {
            DsCmd::Noop => DsCmdView::Noop,
            DsCmd::Reset => DsCmdView::Reset,
            DsCmd::CloseAll => DsCmdView::CloseAll,
            DsCmd::Close(id) => DsCmdView::Close(*id),
            DsCmd::AddTlmSet(s) => DsCmdView::AddTlmSet(s.deep_view()),
            DsCmd::RemoveTlmSet(id) => DsCmdView::RemoveTlmSet(*id),
            DsCmd::DisableTlmSet(id) => DsCmdView::DisableTlmSet(*id),
            DsCmd::EnablTlmSet(id) => DsCmdView::EnablTlmSet(*id),
        }
    }
}

/// The subscription list exchanged between peers.
#[derive(PartialEq, Debug)]
pub struct SubList {
    pub subs: Vec<TargetMsg>,
}

/// Deep view of [`SubList`].
#[verifier::ext_equal]
pub struct SubListView {
    pub subs: Seq<TargetMsg>,
}

impl DeepView for SubList {
    type V = SubListView;

    open spec fn deep_view(&self) -> SubListView {
        SubListView { subs: self.subs.deep_view() }
    }
}

/// Command asking an app to reinitialize (reserved in the current taxonomy).
#[derive(PartialEq, Debug)]
pub struct ReinitAppCmd {
    pub app_name: String,
}

/// Deep view of [`ReinitAppCmd`].
#[verifier::ext_equal]
pub struct ReinitAppCmdView {
    pub app_name: Seq<char>,
}

impl DeepView for ReinitAppCmd {
    type V = ReinitAppCmdView;

    open spec fn deep_view(&self) -> ReinitAppCmdView {
        ReinitAppCmdView { app_name: self.app_name.deep_view() }
    }
}

impl ReinitAppCmd {
    pub fn new(app_name: String) -> (r: ReinitAppCmd)
        ensures
            r.deep_view().app_name == app_name@,
    {
        ReinitAppCmd { app_name }
    }

    pub fn app_name(&self) -> (r: &String)
        ensures
            r@ == self.deep_view().app_name,
    {
        &self.app_name
    }
}

/// The tagged union of every message payload that crosses the bus.
#[derive(PartialEq, Debug)]
pub enum Msg {
    Empty,
    SubRequest,
    SubList(SubList),
    SetTimeCmd(u64),
    ReinitApp(ReinitAppCmd),
    ExampleHk(ExampleHk),
    ExampleOutData(ExampleOutData),
    ExampleCmd(ExampleCmd),
    DsHk(DsHk),
    DsOutData(DsOutData),
    DsCmd(DsCmd),
    HsHk(HsHk),
    HsOutData(HsOutData),
    HsCmd(HsCmd),
    ToHk(ToHk),
    ToOutData(ToOutData),
    ToCmd(ToCmd),
}

/// Deep view of [`Msg`].
#[verifier::ext_equal]
pub enum MsgView {
    Empty,
    SubRequest,
    SubList(SubListView),
    SetTimeCmd(u64),
    ReinitApp(ReinitAppCmdView),
    ExampleHk(ExampleHk),
    ExampleOutData(ExampleOutData),
    ExampleCmd(ExampleCmd),
    DsHk(DsHk),
    DsOutData(DsOutData),
    DsCmd(DsCmdView),
    HsHk(HsHkView),
    HsOutData(HsOutData),
    HsCmd(HsCmd),
    ToHk(ToHk),
    ToOutData(ToOutData),
    ToCmd(ToCmdView),
}

impl DeepView for Msg {
    type V = MsgView;

    open spec fn deep_view(&self) -> MsgView {
        match self {
            Msg::Empty => MsgView::Empty,
            Msg::SubRequest => MsgView::SubRequest,
            Msg::SubList(p) => MsgView::SubList(p.deep_view()),
            Msg::SetTimeCmd(t) => MsgView::SetTimeCmd(*t),
            Msg::ReinitApp(p) => MsgView::ReinitApp(p.deep_view()),
            Msg::ExampleHk(p) => MsgView::ExampleHk(*p),
            Msg::ExampleOutData(p) => MsgView::ExampleOutData(*p),
            Msg::ExampleCmd(p) => MsgView::ExampleCmd(*p),
            Msg::DsHk(p) => MsgView::DsHk(*p),
            Msg::DsOutData(p) => MsgView::DsOutData(*p),
            Msg::DsCmd(p) => MsgView::DsCmd(p.deep_view()),
            Msg::HsHk(p) => MsgView::HsHk(p.deep_view()),
            Msg::HsOutData(p) => MsgView::HsOutData(*p),
            Msg::HsCmd(p) => MsgView::HsCmd(*p),
            Msg::ToHk(p) => MsgView::ToHk(*p),
            Msg::ToOutData(p) => MsgView::ToOutData(*p),
            Msg::ToCmd(p) => MsgView::ToCmd(p.deep_view()),
        }
    }
}

impl MsgView {
    /// The kind tag of a message payload: a pure function of the variant.
    pub open spec fn kind(self) -> MsgKind {
        match self {
            MsgView::Empty => MsgKind::Empty,
            MsgView::SubRequest => MsgKind::SubRequest,
            MsgView::SubList(_) => MsgKind::SubList,
            MsgView::SetTimeCmd(_) => MsgKind::SetTimeCmd,
            MsgView::ReinitApp(_) => MsgKind::ReinitApp,
            MsgView::ExampleHk(_) => MsgKind::ExampleHk,
            MsgView::ExampleOutData(_) => MsgKind::ExampleOutData,
            MsgView::ExampleCmd(_) => MsgKind::ExampleCmd,
            MsgView::DsHk(_) => MsgKind::DsHk,
            MsgView::DsOutData(_) => MsgKind::DsOutData,
            MsgView::DsCmd(_) => MsgKind::DsCmd,
            MsgView::HsHk(_) => MsgKind::HsHk,
            MsgView::HsOutData(_) => MsgKind::HsOutData,
            MsgView::HsCmd(_) => MsgKind::HsCmd,
            MsgView::ToHk(_) => MsgKind::ToHk,
            MsgView::ToOutData(_) => MsgKind::ToOutData,
            MsgView::ToCmd(_) => MsgKind::ToCmd,
        }
    }
}

impl Msg {
    /// The kind tag of this message.
    pub fn kind(&self) -> (r: MsgKind)
        ensures
            r == self.deep_view().kind(),
    {
        match self {
            Msg::Empty => MsgKind::Empty,
            Msg::SubRequest => MsgKind::SubRequest,
            Msg::SubList(_) => MsgKind::SubList,
            Msg::SetTimeCmd(_) => MsgKind::SetTimeCmd,
            Msg::ReinitApp(_) => MsgKind::ReinitApp,
            Msg::ExampleHk(_) => MsgKind::ExampleHk,
            Msg::ExampleOutData(_) => MsgKind::ExampleOutData,
            Msg::ExampleCmd(_) => MsgKind::ExampleCmd,
            Msg::DsHk(_) => MsgKind::DsHk,
            Msg::DsOutData(_) => MsgKind::DsOutData,
            Msg::DsCmd(_) => MsgKind::DsCmd,
            Msg::HsHk(_) => MsgKind::HsHk,
            Msg::HsOutData(_) => MsgKind::HsOutData,
            Msg::HsCmd(_) => MsgKind::HsCmd,
            Msg::ToHk(_) => MsgKind::ToHk,
            Msg::ToOutData(_) => MsgKind::ToOutData,
            Msg::ToCmd(_) => MsgKind::ToCmd,
        }
    }
}

impl Clone for HsHk {
    fn clone(&self) -> (res: Self)
        ensures
            res.deep_view() == self.deep_view(),
    {
        HsHk {
            perf: self.perf,
            counter: self.counter,
            cpu_usage: self.cpu_usage.clone(),
            mem_usage: self.mem_usage,
            fs_usage: self.fs_usage.clone(),
            temps: self.temps.clone(),
            cmd_counter: self.cmd_counter,
            cpu_usage_enabled: self.cpu_usage_enabled,
            mem_usage_enabled: self.mem_usage_enabled,
            fs_usage_enabled: self.fs_usage_enabled,
        }
    }
}

impl Clone for ToTlmSet {
    fn clone(&self) -> (res: Self)
        ensures
            res.deep_view() == self.deep_view(),
    {
        ToTlmSet { items: self.items.clone(), id: self.id, enabled: self.enabled }
    }
}

impl Clone for DsTlmSet {
    fn clone(&self) -> (res: Self)
        ensures
            res.deep_view() == self.deep_view(),
    {
        DsTlmSet {
            items: self.items.clone(),
            id: self.id,
            enabled: self.enabled,
            path: self.path.clone(),
        }
    }
}

impl Clone for ToCmd {
    fn clone(&self) -> (res: Self)
        ensures
            res.deep_view() == self.deep_view(),
    {
        match self {
            ToCmd::Noop => ToCmd::Noop,
            ToCmd::Reset => ToCmd::Reset,
            ToCmd::AddTlmSet(s) => ToCmd::AddTlmSet(s.clone()),
            ToCmd::RemoveTlmSet(id) => ToCmd::RemoveTlmSet(*id),
            ToCmd::DisableTlmSet(id) => ToCmd::DisableTlmSet(*id),
            ToCmd::EnablTlmSet(id) => ToCmd::EnablTlmSet(*id),
        }
    }
}

impl Clone for DsCmd {
    fn clone(&self) -> (res: Self)
        ensures
            res.deep_view() == self.deep_view(),
    {
        match self {
            DsCmd::Noop => DsCmd::Noop,
            DsCmd::Reset => DsCmd::Reset,
            DsCmd::CloseAll => DsCmd::CloseAll,
            DsCmd::Close(id) => DsCmd::Close(*id),
            DsCmd::AddTlmSet(s) => DsCmd::AddTlmSet(s.clone()),
            DsCmd::RemoveTlmSet(id) => DsCmd::RemoveTlmSet(*id),
            DsCmd::DisableTlmSet(id) => DsCmd::DisableTlmSet(*id),
            DsCmd::EnablTlmSet(id) => DsCmd::EnablTlmSet(*id),
        }
    }
}

impl Clone for SubList {
    fn clone(&self) -> (res: Self)
        ensures
            res.deep_view() == self.deep_view(),
    {
        SubList { subs: self.subs.clone() }
    }
}

impl Clone for ReinitAppCmd {
    fn clone(&self) -> (res: Self)
        ensures
            res.deep_view() == self.deep_view(),
    {
        ReinitAppCmd { app_name: self.app_name.clone() }
    }
}

impl Clone for Msg {
    fn clone(&self) -> (res: Self)
        ensures
            res.deep_view() == self.deep_view(),
    {
        match self {
            Msg::Empty => Msg::Empty,
            Msg::SubRequest => Msg::SubRequest,
            Msg::SubList(p) => Msg::SubList(p.clone()),
            Msg::SetTimeCmd(t) => Msg::SetTimeCmd(*t),
            Msg::ReinitApp(p) => Msg::ReinitApp(p.clone()),
            Msg::ExampleHk(p) => Msg::ExampleHk(*p),
            Msg::ExampleOutData(p) => Msg::ExampleOutData(*p),
            Msg::ExampleCmd(p) => Msg::ExampleCmd(*p),
            Msg::DsHk(p) => Msg::DsHk(*p),
            Msg::DsOutData(p) => Msg::DsOutData(*p),
            Msg::DsCmd(p) => Msg::DsCmd(p.clone()),
            Msg::HsHk(p) => Msg::HsHk(p.clone()),
            Msg::HsOutData(p) => Msg::HsOutData(*p),
            Msg::HsCmd(p) => Msg::HsCmd(*p),
            Msg::ToHk(p) => Msg::ToHk(*p),
            Msg::ToOutData(p) => Msg::ToOutData(*p),
            Msg::ToCmd(p) => Msg::ToCmd(p.clone()),
        }
    }
}

/// A message as it crosses the bus or the wire: the sender (or, for
/// commands, the recipient) instance, the payload and the send timestamp.
#[derive(PartialEq, Debug)]
pub struct MsgPacket {
    pub instance: Instance,
    pub msg: Msg,
    pub timestamp: Timestamp,
}

/// Deep view of [`MsgPacket`].
#[verifier::ext_equal]
pub struct MsgPacketView {
    pub instance: Instance,
    pub msg: MsgView,
    pub timestamp: Timestamp,
}

impl DeepView for MsgPacket {
    type V = MsgPacketView;

    open spec fn deep_view(&self) -> MsgPacketView {
        MsgPacketView { instance: self.instance, msg: self.msg.deep_view(), timestamp: self.timestamp }
    }
}

impl MsgPacketView {
    /// The routing key of a packet.
    pub open spec fn to_target(self) -> TargetMsg {
        TargetMsg { instance: self.instance, msg: self.msg.kind() }
    }
}

impl Clone for MsgPacket {
    fn clone(&self) -> (res: Self)
        ensures
            res.deep_view() == self.deep_view(),
    {
        MsgPacket { instance: self.instance, msg: self.msg.clone(), timestamp: self.timestamp }
    }
}

impl MsgPacket {
    pub fn new(instance: Instance, msg: Msg, timestamp: Timestamp) -> (r: MsgPacket)
        ensures
            r.deep_view() == (MsgPacketView {
                instance,
                msg: msg.deep_view(),
                timestamp,
            }),
    {
        MsgPacket { instance, msg, timestamp }
    }

    /// The routing key of this packet.
    pub fn to_target(&self) -> (r: TargetMsg)
        ensures
            r == self.deep_view().to_target(),
    {
        TargetMsg::new(self.instance, self.msg.kind())
    }

    /// Overwrite the send timestamp.
    pub fn timestamp(&mut self, timestamp: Timestamp)
        ensures
            *final(self) == (MsgPacket { timestamp, ..*old(self) }),
    {
        self.timestamp = timestamp;
    }
}

} // verus!
