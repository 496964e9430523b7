//! Codes that MDF 4 blocks store in single bytes.

use vstd::prelude::*;

verus! {

/// The kind of source that acquired a signal (the `si_type` of a source information block).
#[derive(Debug, Clone, Copy, PartialEq, Eq, Structural)]
pub enum SourceType {
    Other,
    Ecu,
    Bus,
    Io,
    Tool,
    User,
}

/// The kind of bus over which a signal was acquired (the `si_bus_type` of a source
/// information block).
#[derive(Debug, Clone, Copy, PartialEq, Eq, Structural)]
pub enum BusType {
    NoBus,
    Other,
    Can,
    Lin,
    Most,
    FlexRay,
    KLine,
    Ethernet,
    Usb,
}

/// The source type that a code stands for; codes 0 to 5 have one.
pub open spec fn source_type_of(code: u8) -> SourceType
    recommends
        code <= 5,
{
    if code == 0 {
        SourceType::Other
    } else if code == 1 {
        SourceType::Ecu
    } else if code == 2 {
        SourceType::Bus
    } else if code == 3 {
        SourceType::Io
    } else if code == 4 {
        SourceType::Tool
    } else {
        SourceType::User
    }
}

/// The bus type that a code stands for; codes 0 to 8 have one.
pub open spec fn bus_type_of(code: u8) -> BusType
    recommends
        code <= 8,
{
    if code == 0 {
        BusType::NoBus
    } else if code == 1 {
        BusType::Other
    } else if code == 2 {
        BusType::Can
    } else if code == 3 {
        BusType::Lin
    } else if code == 4 {
        BusType::Most
    } else if code == 5 {
        BusType::FlexRay
    } else if code == 6 {
        BusType::KLine
    } else if code == 7 {
        BusType::Ethernet
    } else {
        BusType::Usb
    }
}

impl SourceType {
    /// The code that stands for this source type.
    pub open spec fn spec_code(self) -> u8 {
        match self {
            SourceType::Other => 0,
            SourceType::Ecu => 1,
            SourceType::Bus => 2,
            SourceType::Io => 3,
            SourceType::Tool => 4,
            SourceType::User => 5,
        }
    }

    /// The source type for a code from 0 to 5.
    pub fn new(code: u8) -> (t: Self)
        requires
            code <= 5,
        ensures
            t == source_type_of(code),
            t.spec_code() == code,
    {
        if code == 0 {
            SourceType::Other
        } else if code == 1 {
            SourceType::Ecu
        } else if code == 2 {
            SourceType::Bus
        } else if code == 3 {
            SourceType::Io
        } else if code == 4 {
            SourceType::Tool
        } else {
            SourceType::User
        }
    }

    /// The code that stands for this source type.
    pub fn code(&self) -> (c: u8)
        ensures
            c == self.spec_code(),
    {
        match self {
            SourceType::Other => 0,
            SourceType::Ecu => 1,
            SourceType::Bus => 2,
            SourceType::Io => 3,
            SourceType::Tool => 4,
            SourceType::User => 5,
        }
    }
}

impl BusType {
    /// The code that stands for this bus type.
    pub open spec fn spec_code(self) -> u8 {
        match self {
            BusType::NoBus => 0,
            BusType::Other => 1,
            BusType::Can => 2,
            BusType::Lin => 3,
            BusType::Most => 4,
            BusType::FlexRay => 5,
            BusType::KLine => 6,
            BusType::Ethernet => 7,
            BusType::Usb => 8,
        }
    }

    /// The bus type for a code from 0 to 8.
    pub fn new(code: u8) -> (t: Self)
        requires
            code <= 8,
        ensures
            t == bus_type_of(code),
            t.spec_code() == code,
    {
        if code == 0 {
            BusType::NoBus
        } else if code == 1 {
            BusType::Other
        } else if code == 2 {
            BusType::Can
        } else if code == 3 {
            BusType::Lin
        } else if code == 4 {
            BusType::Most
        } else if code == 5 {
            BusType::FlexRay
        } else if code == 6 {
            BusType::KLine
        } else if code == 7 {
            BusType::Ethernet
        } else {
            BusType::Usb
        }
    }

    /// The code that stands for this bus type.
    pub fn code(&self) -> (c: u8)
        ensures
            c == self.spec_code(),
    {
        match self {
            BusType::NoBus => 0,
            BusType::Other => 1,
            BusType::Can => 2,
            BusType::Lin => 3,
            BusType::Most => 4,
            BusType::FlexRay => 5,
            BusType::KLine => 6,
            BusType::Ethernet => 7,
            BusType::Usb => 8,
        }
    }
}

/// The name of a source type, as text.
pub open spec fn source_type_name(t: SourceType) -> Seq<char> {
    match t {
        SourceType::Other => "Other"@,
        SourceType::Ecu => "Ecu"@,
        SourceType::Bus => "Bus"@,
        SourceType::Io => "Io"@,
        SourceType::Tool => "Tool"@,
        SourceType::User => "User"@,
    }
}

/// The name of a bus type, as text.
pub open spec fn bus_type_name(t: BusType) -> Seq<char> {
    match t {
        BusType::NoBus => "None"@,
        BusType::Other => "Other"@,
        BusType::Can => "Can"@,
        BusType::Lin => "Lin"@,
        BusType::Most => "Most"@,
        BusType::FlexRay => "FlexRay"@,
        BusType::KLine => "KLine"@,
        BusType::Ethernet => "Ethernet"@,
        BusType::Usb => "Usb"@,
    }
}

impl SourceType {
    /// The name of the source type.
    pub fn name(&self) -> (s: String)
        ensures
            s@ == source_type_name(*self),
    {
        match self {
            SourceType::Other => "Other".to_string(),
            SourceType::Ecu => "Ecu".to_string(),
            SourceType::Bus => "Bus".to_string(),
            SourceType::Io => "Io".to_string(),
            SourceType::Tool => "Tool".to_string(),
            SourceType::User => "User".to_string(),
        }
    }
}

impl BusType {
    /// The name of the bus type; `None` for no bus.
    pub fn name(&self) -> (s: String)
        ensures
            s@ == bus_type_name(*self),
    {
        match self {
            BusType::NoBus => "None".to_string(),
            BusType::Other => "Other".to_string(),
            BusType::Can => "Can".to_string(),
            BusType::Lin => "Lin".to_string(),
            BusType::Most => "Most".to_string(),
            BusType::FlexRay => "FlexRay".to_string(),
            BusType::KLine => "KLine".to_string(),
            BusType::Ethernet => "Ethernet".to_string(),
            BusType::Usb => "Usb".to_string(),
        }
    }
}

/// A source type read from its code gives back that code.
pub proof fn lemma_source_type_code(code: u8)
    requires
        code <= 5,
    ensures
        source_type_of(code).spec_code() == code,
{
}

/// Every source type is the one that its code stands for.
pub proof fn lemma_source_type_of_code(t: SourceType)
    ensures
        t.spec_code() <= 5,
        source_type_of(t.spec_code()) == t,
{
}

/// A bus type read from its code gives back that code.
pub proof fn lemma_bus_type_code(code: u8)
    requires
        code <= 8,
    ensures
        bus_type_of(code).spec_code() == code,
{
}

/// Every bus type is the one that its code stands for.
pub proof fn lemma_bus_type_of_code(t: BusType)
    ensures
        t.spec_code() <= 8,
        bus_type_of(t.spec_code()) == t,
{
}

/// Each bus type code is reported as the name of its own bus: the text of code `c` names
/// the bus that the source information block stores as `c`.
pub proof fn lemma_bus_type_names()
    ensures
        bus_type_name(bus_type_of(0)) == "None"@,
        bus_type_name(bus_type_of(1)) == "Other"@,
        bus_type_name(bus_type_of(2)) == "Can"@,
        bus_type_name(bus_type_of(3)) == "Lin"@,
        bus_type_name(bus_type_of(4)) == "Most"@,
        bus_type_name(bus_type_of(5)) == "FlexRay"@,
        bus_type_name(bus_type_of(6)) == "KLine"@,
        bus_type_name(bus_type_of(7)) == "Ethernet"@,
        bus_type_name(bus_type_of(8)) == "Usb"@,
        forall|a: BusType, b: BusType| bus_type_name(a) == bus_type_name(b) ==> a == b,
{
    reveal_strlit("None");
    reveal_strlit("Other");
    reveal_strlit("Can");
    reveal_strlit("Lin");
    reveal_strlit("Most");
    reveal_strlit("FlexRay");
    reveal_strlit("KLine");
    reveal_strlit("Ethernet");
    reveal_strlit("Usb");
    assert forall|a: BusType, b: BusType| bus_type_name(a) == bus_type_name(b) implies a == b by {
        if a != b {
            assert(bus_type_name(a).len() != bus_type_name(b).len() || bus_type_name(a)[0]
                != bus_type_name(b)[0] || bus_type_name(a)[1] != bus_type_name(b)[1]);
        }
    }
}

/// Each source type code is reported as the name of its own kind of source: the text of
/// code `c` names the source that the source information block stores as `c`.
pub proof fn lemma_source_type_names()
    ensures
        source_type_name(source_type_of(0)) == "Other"@,
        source_type_name(source_type_of(1)) == "Ecu"@,
        source_type_name(source_type_of(2)) == "Bus"@,
        source_type_name(source_type_of(3)) == "Io"@,
        source_type_name(source_type_of(4)) == "Tool"@,
        source_type_name(source_type_of(5)) == "User"@,
        forall|a: SourceType, b: SourceType| source_type_name(a) == source_type_name(b) ==> a == b,
{
    reveal_strlit("Other");
    reveal_strlit("Ecu");
    reveal_strlit("Bus");
    reveal_strlit("Io");
    reveal_strlit("Tool");
    reveal_strlit("User");
    assert forall|a: SourceType, b: SourceType| source_type_name(a) == source_type_name(b) implies a == b by {
        if a != b {
            assert(source_type_name(a).len() != source_type_name(b).len() || source_type_name(a)[0]
                != source_type_name(b)[0]);
        }
    }
}

} // verus!
