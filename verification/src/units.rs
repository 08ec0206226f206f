//! Drawing units, as the `$INSUNITS` HEADER variable gives them.

use vstd::prelude::*;

verus! {

#[derive(Debug, Clone, Copy, PartialEq, Eq, Structural)]
pub enum DxfUnits {
    Unitless,
    Inch,
    Foot,
    Mile,
    Millimeter,
    Centimeter,
    Meter,
    Kilometer,
    Microinch,
    Mil,
    Yard,
}

/// The unit that a `$INSUNITS` code stands for; codes without a unit of
/// their own mean no unit.
pub open spec fn units_of(code: i32) -> DxfUnits {
    if code == 1 {
        DxfUnits::Inch
    } else if code == 2 {
        DxfUnits::Foot
    } else if code == 3 {
        DxfUnits::Mile
    } else if code == 4 {
        DxfUnits::Millimeter
    } else if code == 5 {
        DxfUnits::Centimeter
    } else if code == 6 {
        DxfUnits::Meter
    } else if code == 7 {
        DxfUnits::Kilometer
    } else if code == 8 {
        DxfUnits::Microinch
    } else if code == 9 {
        DxfUnits::Mil
    } else if code == 10 {
        DxfUnits::Yard
    } else {
        DxfUnits::Unitless
    }
}

/// The `$INSUNITS` codes of the DXF reference: 1 inches, 2 feet, 3 miles,
/// 4 millimeters, 5 centimeters, 6 meters, 7 kilometers, 8 microinches,
/// 9 mils, 10 yards; every other code, 0 among them, means no unit. Each
/// unit has exactly one code.
pub proof fn lemma_insunits_table(code: i32)
    ensures
        code == 1 ==> units_of(code) == DxfUnits::Inch,
        code == 2 ==> units_of(code) == DxfUnits::Foot,
        code == 3 ==> units_of(code) == DxfUnits::Mile,
        code == 4 ==> units_of(code) == DxfUnits::Millimeter,
        code == 5 ==> units_of(code) == DxfUnits::Centimeter,
        code == 6 ==> units_of(code) == DxfUnits::Meter,
        code == 7 ==> units_of(code) == DxfUnits::Kilometer,
        code == 8 ==> units_of(code) == DxfUnits::Microinch,
        code == 9 ==> units_of(code) == DxfUnits::Mil,
        code == 10 ==> units_of(code) == DxfUnits::Yard,
        (code < 1 || code > 10) ==> units_of(code) == DxfUnits::Unitless,
        units_of(code) != DxfUnits::Unitless ==> forall|c: i32| #[trigger] units_of(c)
            == units_of(code) ==> c == code,
{
}

impl DxfUnits {
    /// The unit of a DXF `$INSUNITS` integer code (group code 70).
    pub fn from_dxf_code(code: i32) -> (u: Self)
        ensures
            u == units_of(code),
            code == 1 ==> u == DxfUnits::Inch,
            code == 2 ==> u == DxfUnits::Foot,
            code == 3 ==> u == DxfUnits::Mile,
            code == 4 ==> u == DxfUnits::Millimeter,
            code == 5 ==> u == DxfUnits::Centimeter,
            code == 6 ==> u == DxfUnits::Meter,
            code == 7 ==> u == DxfUnits::Kilometer,
            code == 8 ==> u == DxfUnits::Microinch,
            code == 9 ==> u == DxfUnits::Mil,
            code == 10 ==> u == DxfUnits::Yard,
            (code < 1 || code > 10) ==> u == DxfUnits::Unitless,
    {
        match code {
            1 => DxfUnits::Inch,
            2 => DxfUnits::Foot,
            3 => DxfUnits::Mile,
            4 => DxfUnits::Millimeter,
            5 => DxfUnits::Centimeter,
            6 => DxfUnits::Meter,
            7 => DxfUnits::Kilometer,
            8 => DxfUnits::Microinch,
            9 => DxfUnits::Mil,
            10 => DxfUnits::Yard,
            _ => DxfUnits::Unitless,
        }
    }
}

} // verus!
