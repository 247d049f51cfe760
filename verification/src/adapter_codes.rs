//! The enumerations of the Windows adapter list, with the numbers the system gives their values.

use vstd::prelude::*;

verus! {

/// Where an address's prefix comes from.
#[derive(Clone, Copy, Debug, PartialEq, Eq, Structural)]
pub enum IpPrefixOrigin {
    IpPrefixOriginOther,
    IpPrefixOriginManual,
    IpPrefixOriginWellKnown,
    IpPrefixOriginDhcp,
    IpPrefixOriginRouterAdvertisement,
    IpPrefixOriginUnchanged,
}

impl IpPrefixOrigin {
    /// The number the system gives the origin.
    pub open spec fn code(self) -> u32 {
        match self {
            IpPrefixOrigin::IpPrefixOriginOther => 0,
            IpPrefixOrigin::IpPrefixOriginManual => 1,
            IpPrefixOrigin::IpPrefixOriginWellKnown => 2,
            IpPrefixOrigin::IpPrefixOriginDhcp => 3,
            IpPrefixOrigin::IpPrefixOriginRouterAdvertisement => 4,
            IpPrefixOrigin::IpPrefixOriginUnchanged => 16,
        }
    }

    /// The origin with this number, if there is one.
    pub fn from_code(code: u32) -> (r: Option<Self>)
        ensures
            r matches Some(v) ==> v.code() == code,
            r is None ==> forall|v: Self| #[trigger] v.code() != code,
    {
        match code {
            0 => Some(IpPrefixOrigin::IpPrefixOriginOther),
            1 => Some(IpPrefixOrigin::IpPrefixOriginManual),
            2 => Some(IpPrefixOrigin::IpPrefixOriginWellKnown),
            3 => Some(IpPrefixOrigin::IpPrefixOriginDhcp),
            4 => Some(IpPrefixOrigin::IpPrefixOriginRouterAdvertisement),
            16 => Some(IpPrefixOrigin::IpPrefixOriginUnchanged),
            _ => None,
        }
    }
}

/// Where an address's interface identifier comes from.
#[derive(Clone, Copy, Debug, PartialEq, Eq, Structural)]
pub enum IpSuffixOrigin {
    IpSuffixOriginOther,
    IpSuffixOriginManual,
    IpSuffixOriginWellKnown,
    IpSuffixOriginDhcp,
    IpSuffixOriginLinkLayerAddress,
    IpSuffixOriginRandom,
    IpSuffixOriginUnchanged,
}

impl IpSuffixOrigin {
    /// The number the system gives the origin.
    pub open spec fn code(self) -> u32 {
        match self {
            IpSuffixOrigin::IpSuffixOriginOther => 0,
            IpSuffixOrigin::IpSuffixOriginManual => 1,
            IpSuffixOrigin::IpSuffixOriginWellKnown => 2,
            IpSuffixOrigin::IpSuffixOriginDhcp => 3,
            IpSuffixOrigin::IpSuffixOriginLinkLayerAddress => 4,
            IpSuffixOrigin::IpSuffixOriginRandom => 5,
            IpSuffixOrigin::IpSuffixOriginUnchanged => 16,
        }
    }

    /// The origin with this number, if there is one.
    pub fn from_code(code: u32) -> (r: Option<Self>)
        ensures
            r matches Some(v) ==> v.code() == code,
            r is None ==> forall|v: Self| #[trigger] v.code() != code,
    {
        match code {
            0 => Some(IpSuffixOrigin::IpSuffixOriginOther),
            1 => Some(IpSuffixOrigin::IpSuffixOriginManual),
            2 => Some(IpSuffixOrigin::IpSuffixOriginWellKnown),
            3 => Some(IpSuffixOrigin::IpSuffixOriginDhcp),
            4 => Some(IpSuffixOrigin::IpSuffixOriginLinkLayerAddress),
            5 => Some(IpSuffixOrigin::IpSuffixOriginRandom),
            16 => Some(IpSuffixOrigin::IpSuffixOriginUnchanged),
            _ => None,
        }
    }
}

/// How far duplicate address detection has come.
#[derive(Clone, Copy, Debug, PartialEq, Eq, Structural)]
pub enum IpDadState {
    IpDadStateInvalid,
    IpDadStateTentative,
    IpDadStateDuplicate,
    IpDadStateDeprecated,
    IpDadStatePreferred,
}

impl IpDadState {
    /// The number the system gives the state.
    pub open spec fn code(self) -> u32 {
        match self {
            IpDadState::IpDadStateInvalid => 0,
            IpDadState::IpDadStateTentative => 1,
            IpDadState::IpDadStateDuplicate => 2,
            IpDadState::IpDadStateDeprecated => 3,
            IpDadState::IpDadStatePreferred => 4,
        }
    }

    /// The state with this number, if there is one.
    pub fn from_code(code: u32) -> (r: Option<Self>)
        ensures
            r matches Some(v) ==> v.code() == code,
            r is None ==> forall|v: Self| #[trigger] v.code() != code,
    {
        match code {
            0 => Some(IpDadState::IpDadStateInvalid),
            1 => Some(IpDadState::IpDadStateTentative),
            2 => Some(IpDadState::IpDadStateDuplicate),
            3 => Some(IpDadState::IpDadStateDeprecated),
            4 => Some(IpDadState::IpDadStatePreferred),
            _ => None,
        }
    }
}

/// What an adapter is doing.
#[derive(Clone, Copy, Debug, PartialEq, Eq, Structural)]
pub enum IfOperStatus {
    IfOperStatusUp,
    IfOperStatusDown,
    IfOperStatusTesting,
    IfOperStatusUnknown,
    IfOperStatusDormant,
    IfOperStatusNotPresent,
    IfOperStatusLowerLayerDown,
}

impl IfOperStatus {
    /// The number the system gives the status.
    pub open spec fn code(self) -> u32 {
        match self {
            IfOperStatus::IfOperStatusUp => 1,
            IfOperStatus::IfOperStatusDown => 2,
            IfOperStatus::IfOperStatusTesting => 3,
            IfOperStatus::IfOperStatusUnknown => 4,
            IfOperStatus::IfOperStatusDormant => 5,
            IfOperStatus::IfOperStatusNotPresent => 6,
            IfOperStatus::IfOperStatusLowerLayerDown => 7,
        }
    }

    /// The status with this number, if there is one.
    pub fn from_code(code: u32) -> (r: Option<Self>)
        ensures
            r matches Some(v) ==> v.code() == code,
            r is None ==> forall|v: Self| #[trigger] v.code() != code,
    {
        match code {
            1 => Some(IfOperStatus::IfOperStatusUp),
            2 => Some(IfOperStatus::IfOperStatusDown),
            3 => Some(IfOperStatus::IfOperStatusTesting),
            4 => Some(IfOperStatus::IfOperStatusUnknown),
            5 => Some(IfOperStatus::IfOperStatusDormant),
            6 => Some(IfOperStatus::IfOperStatusNotPresent),
            7 => Some(IfOperStatus::IfOperStatusLowerLayerDown),
            _ => None,
        }
    }
}

/// How an adapter's connection comes about.
#[derive(Clone, Copy, Debug, PartialEq, Eq, Structural)]
pub enum NetIfConnectionType {
    NetIfConnectionDedicated,
    NetIfConnectionPassive,
    NetIfConnectionDemand,
    NetIfConnectionMaximum,
}

impl NetIfConnectionType {
    /// The number the system gives the type.
    pub open spec fn code(self) -> u32 {
        match self {
            NetIfConnectionType::NetIfConnectionDedicated => 1,
            NetIfConnectionType::NetIfConnectionPassive => 2,
            NetIfConnectionType::NetIfConnectionDemand => 3,
            NetIfConnectionType::NetIfConnectionMaximum => 4,
        }
    }

    /// The type with this number, if there is one.
    pub fn from_code(code: u32) -> (r: Option<Self>)
        ensures
            r matches Some(v) ==> v.code() == code,
            r is None ==> forall|v: Self| #[trigger] v.code() != code,
    {
        match code {
            1 => Some(NetIfConnectionType::NetIfConnectionDedicated),
            2 => Some(NetIfConnectionType::NetIfConnectionPassive),
            3 => Some(NetIfConnectionType::NetIfConnectionDemand),
            4 => Some(NetIfConnectionType::NetIfConnectionMaximum),
            _ => None,
        }
    }
}

/// What an adapter tunnels, if it does.
#[derive(Clone, Copy, Debug, PartialEq, Eq, Structural)]
pub enum TunnelType {
    TunnelTypeNone,
    TunnelTypeOther,
    TunnelTypeDirect,
    TunnelType6To4,
    TunnelTypeIsatap,
    TunnelTypeTeredo,
    TunnelTypeIpHttps,
}

impl TunnelType {
    /// The number the system gives the type.
    pub open spec fn code(self) -> u32 {
        match self {
            TunnelType::TunnelTypeNone => 0,
            TunnelType::TunnelTypeOther => 1,
            TunnelType::TunnelTypeDirect => 2,
            TunnelType::TunnelType6To4 => 11,
            TunnelType::TunnelTypeIsatap => 13,
            TunnelType::TunnelTypeTeredo => 14,
            TunnelType::TunnelTypeIpHttps => 15,
        }
    }

    /// The type with this number, if there is one.
    pub fn from_code(code: u32) -> (r: Option<Self>)
        ensures
            r matches Some(v) ==> v.code() == code,
            r is None ==> forall|v: Self| #[trigger] v.code() != code,
    {
        match code {
            0 => Some(TunnelType::TunnelTypeNone),
            1 => Some(TunnelType::TunnelTypeOther),
            2 => Some(TunnelType::TunnelTypeDirect),
            11 => Some(TunnelType::TunnelType6To4),
            13 => Some(TunnelType::TunnelTypeIsatap),
            14 => Some(TunnelType::TunnelTypeTeredo),
            15 => Some(TunnelType::TunnelTypeIpHttps),
            _ => None,
        }
    }
}

/// No two of an enumeration's values have one number, so that the number can be read back.
pub proof fn law_codes_are_distinct()
    ensures
        forall|a: IpPrefixOrigin, b: IpPrefixOrigin|
            #[trigger] a.code() == #[trigger] b.code() ==> a == b,
        forall|a: IpSuffixOrigin, b: IpSuffixOrigin|
            #[trigger] a.code() == #[trigger] b.code() ==> a == b,
        forall|a: IpDadState, b: IpDadState|
            #[trigger] a.code() == #[trigger] b.code() ==> a == b,
        forall|a: IfOperStatus, b: IfOperStatus|
            #[trigger] a.code() == #[trigger] b.code() ==> a == b,
        forall|a: NetIfConnectionType, b: NetIfConnectionType|
            #[trigger] a.code() == #[trigger] b.code() ==> a == b,
        forall|a: TunnelType, b: TunnelType|
            #[trigger] a.code() == #[trigger] b.code() ==> a == b,
{
}

/// The numbers are the system's own, value by value.
pub proof fn law_codes_by_number()
    ensures
        IpPrefixOrigin::IpPrefixOriginOther.code() == 0,
        IpPrefixOrigin::IpPrefixOriginManual.code() == 1,
        IpPrefixOrigin::IpPrefixOriginWellKnown.code() == 2,
        IpPrefixOrigin::IpPrefixOriginDhcp.code() == 3,
        IpPrefixOrigin::IpPrefixOriginRouterAdvertisement.code() == 4,
        IpPrefixOrigin::IpPrefixOriginUnchanged.code() == 16,
        IpSuffixOrigin::IpSuffixOriginOther.code() == 0,
        IpSuffixOrigin::IpSuffixOriginManual.code() == 1,
        IpSuffixOrigin::IpSuffixOriginWellKnown.code() == 2,
        IpSuffixOrigin::IpSuffixOriginDhcp.code() == 3,
        IpSuffixOrigin::IpSuffixOriginLinkLayerAddress.code() == 4,
        IpSuffixOrigin::IpSuffixOriginRandom.code() == 5,
        IpSuffixOrigin::IpSuffixOriginUnchanged.code() == 16,
        IpDadState::IpDadStateInvalid.code() == 0,
        IpDadState::IpDadStateTentative.code() == 1,
        IpDadState::IpDadStateDuplicate.code() == 2,
        IpDadState::IpDadStateDeprecated.code() == 3,
        IpDadState::IpDadStatePreferred.code() == 4,
        IfOperStatus::IfOperStatusUp.code() == 1,
        IfOperStatus::IfOperStatusDown.code() == 2,
        IfOperStatus::IfOperStatusTesting.code() == 3,
        IfOperStatus::IfOperStatusUnknown.code() == 4,
        IfOperStatus::IfOperStatusDormant.code() == 5,
        IfOperStatus::IfOperStatusNotPresent.code() == 6,
        IfOperStatus::IfOperStatusLowerLayerDown.code() == 7,
        NetIfConnectionType::NetIfConnectionDedicated.code() == 1,
        NetIfConnectionType::NetIfConnectionPassive.code() == 2,
        NetIfConnectionType::NetIfConnectionDemand.code() == 3,
        NetIfConnectionType::NetIfConnectionMaximum.code() == 4,
        TunnelType::TunnelTypeNone.code() == 0,
        TunnelType::TunnelTypeOther.code() == 1,
        TunnelType::TunnelTypeDirect.code() == 2,
        TunnelType::TunnelType6To4.code() == 11,
        TunnelType::TunnelTypeIsatap.code() == 13,
        TunnelType::TunnelTypeTeredo.code() == 14,
        TunnelType::TunnelTypeIpHttps.code() == 15,
{
}

} // verus!
