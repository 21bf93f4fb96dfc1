use crate::binary64::{encodes_integer, functional, Operation};
use vstd::arithmetic::power2::{lemma2_to64, lemma2_to64_rest};
use vstd::prelude::*;
use vstd::string::StrSliceExecFns;

verus! {

/// Units of time. The base unit is the nanosecond.
#[derive(Clone, Copy, Debug, PartialEq, Eq, Structural)]
pub enum TimeUnit {
    NS,
    US,
    MS,
    S,
}

/// Units of memory. The base unit is the byte.
#[derive(Clone, Copy, Debug, PartialEq, Eq, Structural)]
pub enum MemoryUnit {
    B,
    KB,
    KIB,
    MB,
    MIB,
    GB,
    GIB,
}

/// Dimensionless units.
#[derive(Clone, Copy, Debug, PartialEq, Eq, Structural)]
pub enum PureUnit {
    Percentage,
    NoUnit,
}

/// A measurement unit from one of three disjoint families.
#[derive(Clone, Copy, Debug, PartialEq, Eq, Structural)]
pub enum Unit {
    TimeUnit(TimeUnit),
    MemoryUnit(MemoryUnit),
    PureUnit(PureUnit),
}

/// Tells whether two strings hold the same characters.
fn same_text(a: &str, b: &str) -> (same: bool)
    ensures
        same == (a@ == b@),
{
    let n: usize = a.unicode_len();
    if n != b.unicode_len() {
        return false;
    }
    let mut i: usize = 0;
    while i < n
        invariant
            i <= n,
            n == a@.len(),
            n == b@.len(),
            forall|j: int| 0 <= j < i ==> a@[j] == b@[j],
        decreases n - i,
    {
        if a.get_char(i) != b.get_char(i) {
            return false;
        }
        i += 1;
    }
    assert(a@ =~= b@);
    true
}

impl Unit {
    /// The unit that a key names. A key that names no unit stands for the
    /// dimensionless `NoUnit`.
    pub open spec fn parse(key: Seq<char>) -> Unit {
        if key == "ns"@ {
            Unit::TimeUnit(TimeUnit::NS)
        } else if key == "us"@ {
            Unit::TimeUnit(TimeUnit::US)
        } else if key == "ms"@ {
            Unit::TimeUnit(TimeUnit::MS)
        } else if key == "s"@ {
            Unit::TimeUnit(TimeUnit::S)
        } else if key == "b"@ {
            Unit::MemoryUnit(MemoryUnit::B)
        } else if key == "kb"@ {
            Unit::MemoryUnit(MemoryUnit::KB)
        } else if key == "Mb"@ {
            Unit::MemoryUnit(MemoryUnit::MB)
        } else if key == "Gb"@ {
            Unit::MemoryUnit(MemoryUnit::GB)
        } else if key == "kib"@ {
            Unit::MemoryUnit(MemoryUnit::KIB)
        } else if key == "Mib"@ {
            Unit::MemoryUnit(MemoryUnit::MIB)
        } else if key == "Gib"@ {
            Unit::MemoryUnit(MemoryUnit::GIB)
        } else if key == "%"@ {
            Unit::PureUnit(PureUnit::Percentage)
        } else {
            Unit::PureUnit(PureUnit::NoUnit)
        }
    }

    /// The canonical short string of a unit.
    pub open spec fn key(self) -> Seq<char> {
        match self {
            Unit::TimeUnit(TimeUnit::NS) => "ns"@,
            Unit::TimeUnit(TimeUnit::US) => "us"@,
            Unit::TimeUnit(TimeUnit::MS) => "ms"@,
            Unit::TimeUnit(TimeUnit::S) => "s"@,
            Unit::MemoryUnit(MemoryUnit::B) => "b"@,
            Unit::MemoryUnit(MemoryUnit::KB) => "kb"@,
            Unit::MemoryUnit(MemoryUnit::MB) => "Mb"@,
            Unit::MemoryUnit(MemoryUnit::GB) => "Gb"@,
            Unit::MemoryUnit(MemoryUnit::KIB) => "kib"@,
            Unit::MemoryUnit(MemoryUnit::MIB) => "Mib"@,
            Unit::MemoryUnit(MemoryUnit::GIB) => "Gib"@,
            Unit::PureUnit(PureUnit::Percentage) => "%"@,
            Unit::PureUnit(PureUnit::NoUnit) => ""@,
        }
    }

    /// How many base units of its family make one of this unit.
    pub open spec fn factor(self) -> nat {
        match self {
            Unit::TimeUnit(TimeUnit::NS) => 1,
            Unit::TimeUnit(TimeUnit::US) => 1_000,
            Unit::TimeUnit(TimeUnit::MS) => 1_000_000,
            Unit::TimeUnit(TimeUnit::S) => 1_000_000_000,
            Unit::MemoryUnit(MemoryUnit::B) => 1,
            Unit::MemoryUnit(MemoryUnit::KB) => 1_000,
            Unit::MemoryUnit(MemoryUnit::MB) => 1_000_000,
            Unit::MemoryUnit(MemoryUnit::GB) => 1_000_000_000,
            Unit::MemoryUnit(MemoryUnit::KIB) => 1024,
            Unit::MemoryUnit(MemoryUnit::MIB) => 1024 * 1024,
            Unit::MemoryUnit(MemoryUnit::GIB) => 1024 * 1024 * 1024,
            Unit::PureUnit(PureUnit::Percentage) => 1,
            Unit::PureUnit(PureUnit::NoUnit) => 1,
        }
    }

    /// The binary64 pattern of the scale factor.
    pub open spec fn scaler(self) -> u64 {
        match self {
            Unit::TimeUnit(TimeUnit::NS) => 0x3ff0_0000_0000_0000,
            Unit::TimeUnit(TimeUnit::US) => 0x408f_4000_0000_0000,
            Unit::TimeUnit(TimeUnit::MS) => 0x412e_8480_0000_0000,
            Unit::TimeUnit(TimeUnit::S) => 0x41cd_cd65_0000_0000,
            Unit::MemoryUnit(MemoryUnit::B) => 0x3ff0_0000_0000_0000,
            Unit::MemoryUnit(MemoryUnit::KB) => 0x408f_4000_0000_0000,
            Unit::MemoryUnit(MemoryUnit::MB) => 0x412e_8480_0000_0000,
            Unit::MemoryUnit(MemoryUnit::GB) => 0x41cd_cd65_0000_0000,
            Unit::MemoryUnit(MemoryUnit::KIB) => 0x4090_0000_0000_0000,
            Unit::MemoryUnit(MemoryUnit::MIB) => 0x4130_0000_0000_0000,
            Unit::MemoryUnit(MemoryUnit::GIB) => 0x41d0_0000_0000_0000,
            Unit::PureUnit(PureUnit::Percentage) => 0x3ff0_0000_0000_0000,
            Unit::PureUnit(PureUnit::NoUnit) => 0x3ff0_0000_0000_0000,
        }
    }

    /// Whether `factor` is a quotient that `arith` may return for the scale
    /// factor of this unit divided by that of `target`: multiplying a value
    /// expressed in this unit by it gives the value in `target`.
    pub open spec fn converts_by<A: Fn(Operation, u64, u64) -> u64>(
        self,
        target: Unit,
        arith: &A,
        factor: u64,
    ) -> bool {
        arith.ensures((Operation::Divide, self.scaler(), target.scaler()), factor)
    }

    /// Whether `out` is a pattern that `arith` may return for `value`,
    /// expressed in this unit, converted to `target`: the value multiplied
    /// by a conversion factor.
    pub open spec fn converts<A: Fn(Operation, u64, u64) -> u64>(
        self,
        target: Unit,
        arith: &A,
        value: u64,
        out: u64,
    ) -> bool {
        exists|factor: u64|
            #[trigger] self.converts_by(target, arith, factor) && arith.ensures(
                (Operation::Multiply, value, factor),
                out,
            )
    }

    /// Whether `out` holds the cells of `values`, expressed in this unit,
    /// converted to `target`: each multiplied by the same conversion factor.
    pub open spec fn converts_all<A: Fn(Operation, u64, u64) -> u64>(
        self,
        target: Unit,
        arith: &A,
        values: Seq<u64>,
        out: Seq<u64>,
    ) -> bool {
        &&& out.len() == values.len()
        &&& exists|factor: u64|
            #[trigger] self.converts_by(target, arith, factor) && forall|i: int|
                0 <= i < values.len() ==> arith.ensures(
                    (Operation::Multiply, values[i], factor),
                    #[trigger] out[i],
                )
    }

    /// Whether two units belong to the same family.
    pub open spec fn same_family(self, other: Unit) -> bool {
        ||| self is TimeUnit && other is TimeUnit
        ||| self is MemoryUnit && other is MemoryUnit
        ||| self is PureUnit && other is PureUnit
    }

    /// The unit that `string` names, or `NoUnit` where it names none.
    pub fn from_str(string: &str) -> (unit: Self)
        ensures
            unit == Unit::parse(string@),
    {
        if same_text(string, "ns") {
            Unit::TimeUnit(TimeUnit::NS)
        } else if same_text(string, "us") {
            Unit::TimeUnit(TimeUnit::US)
        } else if same_text(string, "ms") {
            Unit::TimeUnit(TimeUnit::MS)
        } else if same_text(string, "s") {
            Unit::TimeUnit(TimeUnit::S)
        } else if same_text(string, "b") {
            Unit::MemoryUnit(MemoryUnit::B)
        } else if same_text(string, "kb") {
            Unit::MemoryUnit(MemoryUnit::KB)
        } else if same_text(string, "Mb") {
            Unit::MemoryUnit(MemoryUnit::MB)
        } else if same_text(string, "Gb") {
            Unit::MemoryUnit(MemoryUnit::GB)
        } else if same_text(string, "kib") {
            Unit::MemoryUnit(MemoryUnit::KIB)
        } else if same_text(string, "Mib") {
            Unit::MemoryUnit(MemoryUnit::MIB)
        } else if same_text(string, "Gib") {
            Unit::MemoryUnit(MemoryUnit::GIB)
        } else if same_text(string, "%") {
            Unit::PureUnit(PureUnit::Percentage)
        } else {
            Unit::PureUnit(PureUnit::NoUnit)
        }
    }

    /// The canonical short string of the unit.
    pub fn as_str(&self) -> (text: &'static str)
        ensures
            text@ == self.key(),
    {
        match self {
            Unit::TimeUnit(TimeUnit::NS) => "ns",
            Unit::TimeUnit(TimeUnit::US) => "us",
            Unit::TimeUnit(TimeUnit::MS) => "ms",
            Unit::TimeUnit(TimeUnit::S) => "s",
            Unit::MemoryUnit(MemoryUnit::B) => "b",
            Unit::MemoryUnit(MemoryUnit::KB) => "kb",
            Unit::MemoryUnit(MemoryUnit::MB) => "Mb",
            Unit::MemoryUnit(MemoryUnit::GB) => "Gb",
            Unit::MemoryUnit(MemoryUnit::KIB) => "kib",
            Unit::MemoryUnit(MemoryUnit::MIB) => "Mib",
            Unit::MemoryUnit(MemoryUnit::GIB) => "Gib",
            Unit::PureUnit(PureUnit::Percentage) => "%",
            Unit::PureUnit(PureUnit::NoUnit) => "",
        }
    }

    /// The scale factor of the unit as a binary64 pattern: how many base
    /// units of its family make one of it.
    pub fn as_scaler(&self) -> (bits: u64)
        ensures
            bits == self.scaler(),
    {
        match self {
            Unit::TimeUnit(TimeUnit::NS) => 0x3ff0_0000_0000_0000,
            Unit::TimeUnit(TimeUnit::US) => 0x408f_4000_0000_0000,
            Unit::TimeUnit(TimeUnit::MS) => 0x412e_8480_0000_0000,
            Unit::TimeUnit(TimeUnit::S) => 0x41cd_cd65_0000_0000,
            Unit::MemoryUnit(MemoryUnit::B) => 0x3ff0_0000_0000_0000,
            Unit::MemoryUnit(MemoryUnit::KB) => 0x408f_4000_0000_0000,
            Unit::MemoryUnit(MemoryUnit::MB) => 0x412e_8480_0000_0000,
            Unit::MemoryUnit(MemoryUnit::GB) => 0x41cd_cd65_0000_0000,
            Unit::MemoryUnit(MemoryUnit::KIB) => 0x4090_0000_0000_0000,
            Unit::MemoryUnit(MemoryUnit::MIB) => 0x4130_0000_0000_0000,
            Unit::MemoryUnit(MemoryUnit::GIB) => 0x41d0_0000_0000_0000,
            Unit::PureUnit(PureUnit::Percentage) => 0x3ff0_0000_0000_0000,
            Unit::PureUnit(PureUnit::NoUnit) => 0x3ff0_0000_0000_0000,
        }
    }

    /// Asks `arith` for the factor that takes a value expressed in this unit
    /// to the same value expressed in `target`.
    pub fn conversion_factor<A: Fn(Operation, u64, u64) -> u64>(
        &self,
        target: &Unit,
        arith: &A,
    ) -> (factor: u64)
        requires
            arith.requires((Operation::Divide, self.scaler(), target.scaler())),
        ensures
            self.converts_by(*target, arith, factor),
    {
        arith(Operation::Divide, self.as_scaler(), target.as_scaler())
    }

    /// Tells whether the two units belong to one family.
    pub fn same_unit_pattern(&self, other: &Unit) -> (same: bool)
        ensures
            same == self.same_family(*other),
    {
        match (self, other) {
            (Unit::MemoryUnit(_), Unit::MemoryUnit(_)) => true,
            (Unit::TimeUnit(_), Unit::TimeUnit(_)) => true,
            (Unit::PureUnit(_), Unit::PureUnit(_)) => true,
            (_, _) => false,
        }
    }
}

/// Whether `key` is one of the twelve strings that name a unit.
pub open spec fn is_defined_key(key: Seq<char>) -> bool {
    ||| key == "ns"@
    ||| key == "us"@
    ||| key == "ms"@
    ||| key == "s"@
    ||| key == "b"@
    ||| key == "kb"@
    ||| key == "Mb"@
    ||| key == "Gb"@
    ||| key == "kib"@
    ||| key == "Mib"@
    ||| key == "Gib"@
    ||| key == "%"@
}

/// Parsing the canonical string of a unit gives the unit back.
pub proof fn lemma_parse_of_key(unit: Unit)
    ensures
        Unit::parse(unit.key()) == unit,
{
    reveal_strlit("ns");
    reveal_strlit("us");
    reveal_strlit("ms");
    reveal_strlit("s");
    reveal_strlit("b");
    reveal_strlit("kb");
    reveal_strlit("Mb");
    reveal_strlit("Gb");
    reveal_strlit("kib");
    reveal_strlit("Mib");
    reveal_strlit("Gib");
    reveal_strlit("%");
    reveal_strlit("");
    assert("kib"@.len() == 3 && "Mib"@.len() == 3 && "Gib"@.len() == 3 && "%"@.len() == 1);
    assert(""@.len() == 0);
    assert("ns"@[0] == 'n' && "us"@[0] == 'u' && "ms"@[0] == 'm' && "s"@[0] == 's');
    assert("b"@[0] == 'b' && "kb"@[0] == 'k' && "Mb"@[0] == 'M' && "Gb"@[0] == 'G');
    assert("kib"@[0] == 'k' && "Mib"@[0] == 'M' && "Gib"@[0] == 'G' && "%"@[0] == '%');
}

/// Rendering the unit that a defined key names gives the key back.
pub proof fn lemma_key_of_parse(key: Seq<char>)
    requires
        is_defined_key(key),
    ensures
        Unit::parse(key).key() == key,
{
}

/// A key names a unit other than `NoUnit` exactly if it is a defined key.
pub proof fn lemma_defined_keys(key: Seq<char>)
    ensures
        is_defined_key(key) <==> Unit::parse(key) != Unit::PureUnit(PureUnit::NoUnit),
{
}

/// With arithmetic that returns one result only, a value has one conversion
/// from a unit to another.
pub proof fn lemma_converts_once<A: Fn(Operation, u64, u64) -> u64>(
    from: Unit,
    target: Unit,
    arith: &A,
    value: u64,
    first: u64,
    second: u64,
)
    requires
        functional(arith),
        from.converts(target, arith, value, first),
        from.converts(target, arith, value, second),
    ensures
        first == second,
{
}

/// The pattern that `as_scaler` returns encodes the scale factor exactly.
pub proof fn lemma_scaler_encodes_factor(unit: Unit)
    ensures
        encodes_integer(unit.scaler(), unit.factor()),
{
    lemma2_to64();
    lemma2_to64_rest();
    let bits = unit.scaler();
    assert(bits == 0x3ff0_0000_0000_0000 ==> (bits >> 52) & 0x7ff == 1023 && bits
        & 0xf_ffff_ffff_ffff == 0 && bits >> 63 == 0) by (bit_vector);
    assert(bits == 0x408f_4000_0000_0000 ==> (bits >> 52) & 0x7ff == 1032 && bits
        & 0xf_ffff_ffff_ffff == 0xf_4000_0000_0000 && bits >> 63 == 0) by (bit_vector);
    assert(bits == 0x412e_8480_0000_0000 ==> (bits >> 52) & 0x7ff == 1042 && bits
        & 0xf_ffff_ffff_ffff == 0xe_8480_0000_0000 && bits >> 63 == 0) by (bit_vector);
    assert(bits == 0x41cd_cd65_0000_0000 ==> (bits >> 52) & 0x7ff == 1052 && bits
        & 0xf_ffff_ffff_ffff == 0xd_cd65_0000_0000 && bits >> 63 == 0) by (bit_vector);
    assert(bits == 0x4090_0000_0000_0000 ==> (bits >> 52) & 0x7ff == 1033 && bits
        & 0xf_ffff_ffff_ffff == 0 && bits >> 63 == 0) by (bit_vector);
    assert(bits == 0x4130_0000_0000_0000 ==> (bits >> 52) & 0x7ff == 1043 && bits
        & 0xf_ffff_ffff_ffff == 0 && bits >> 63 == 0) by (bit_vector);
    assert(bits == 0x41d0_0000_0000_0000 ==> (bits >> 52) & 0x7ff == 1053 && bits
        & 0xf_ffff_ffff_ffff == 0 && bits >> 63 == 0) by (bit_vector);
}

} // verus!
