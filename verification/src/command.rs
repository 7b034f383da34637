use vstd::prelude::*;

verus! {

/// Panel orientation, written to the MADCTL register.
#[derive(Clone, Copy, Debug, PartialEq, Eq, Structural)]
pub enum Rotation {
    Portrait,
    Landscape,
    InvertedPortrait,
    InvertedLandscape,
}

impl Rotation {
    /// The MADCTL value that selects this orientation.
    pub open spec fn madctl(self) -> u8 {
        match self {
            Rotation::Portrait => 0x00,
            Rotation::Landscape => 0x60,
            Rotation::InvertedPortrait => 0xC0,
            Rotation::InvertedLandscape => 0xA0,
        }
    }

    /// The MADCTL value that selects this orientation.
    pub fn value(&self) -> (v: u8)
        ensures
            v == self.madctl(),
    {
        match self {
            Rotation::Portrait => 0x00,
            Rotation::Landscape => 0x60,
            Rotation::InvertedPortrait => 0xC0,
            Rotation::InvertedLandscape => 0xA0,
        }
    }
}

/// Pixel formats of the COLMOD register: the interface format
/// (`ColorMode65k`, `ColorMode262k`) and the control format (the others).
/// The two halves are combined with `|`.
#[derive(Clone, Copy, Debug, PartialEq, Eq, Structural)]
pub enum ColorMode {
    ColorMode65k,
    ColorMode262k,
    ColorMode12bit,
    ColorMode16bit,
    ColorMode18bit,
    ColorMode16m,
}

impl ColorMode {
    /// The register bits of this mode.
    pub open spec fn bits(self) -> u8 {
        match self {
            ColorMode::ColorMode65k => 0x50,
            ColorMode::ColorMode262k => 0x60,
            ColorMode::ColorMode12bit => 0x03,
            ColorMode::ColorMode16bit => 0x05,
            ColorMode::ColorMode18bit => 0x06,
            ColorMode::ColorMode16m => 0x07,
        }
    }

    /// The register bits of this mode.
    pub fn value(&self) -> (v: u8)
        ensures
            v == self.bits(),
    {
        match self {
            ColorMode::ColorMode65k => 0x50,
            ColorMode::ColorMode262k => 0x60,
            ColorMode::ColorMode12bit => 0x03,
            ColorMode::ColorMode16bit => 0x05,
            ColorMode::ColorMode18bit => 0x06,
            ColorMode::ColorMode16m => 0x07,
        }
    }
}

/// Combines an interface format and a control format into one COLMOD value:
/// the bitwise or of their bits.
impl core::ops::BitOr for ColorMode {
    type Output = u8;

    fn bitor(self, rhs: ColorMode) -> (v: u8) {
        self.value() | rhs.value()
    }
}

impl vstd::std_specs::ops::BitOrSpecImpl for ColorMode {
    open spec fn obeys_bitor_spec() -> bool {
        true
    }

    open spec fn bitor_req(self, rhs: ColorMode) -> bool {
        true
    }

    open spec fn bitor_spec(self, rhs: ColorMode) -> u8 {
        self.bits() | rhs.bits()
    }
}

/// The ST7789 commands this driver sends.
#[derive(Clone, Copy, Debug, PartialEq, Eq, Structural)]
pub enum Command {
    Nop,
    Swreset,
    Rddid,
    Rddst,
    Slpin,
    Slpout,
    Ptlon,
    Noron,
    Invoff,
    Invon,
    Dispoff,
    Dispon,
    Caset,
    Raset,
    Ramwr,
    Ramrd,
    Ptlar,
    Vscrdef,
    Colmod,
    Madctl,
    Vscsad,
}

impl Command {
    /// The command's opcode byte.
    pub open spec fn opcode(self) -> u8 {
        match self {
            Command::Nop => 0x00,
            Command::Swreset => 0x01,
            Command::Rddid => 0x04,
            Command::Rddst => 0x09,
            Command::Slpin => 0x10,
            Command::Slpout => 0x11,
            Command::Ptlon => 0x12,
            Command::Noron => 0x13,
            Command::Invoff => 0x20,
            Command::Invon => 0x21,
            Command::Dispoff => 0x28,
            Command::Dispon => 0x29,
            Command::Caset => 0x2A,
            Command::Raset => 0x2B,
            Command::Ramwr => 0x2C,
            Command::Ramrd => 0x2E,
            Command::Ptlar => 0x30,
            Command::Vscrdef => 0x33,
            Command::Colmod => 0x3A,
            Command::Madctl => 0x36,
            Command::Vscsad => 0x37,
        }
    }

    /// The command's opcode byte.
    pub fn code(&self) -> (c: u8)
        ensures
            c == self.opcode(),
    {
        match self {
            Command::Nop => 0x00,
            Command::Swreset => 0x01,
            Command::Rddid => 0x04,
            Command::Rddst => 0x09,
            Command::Slpin => 0x10,
            Command::Slpout => 0x11,
            Command::Ptlon => 0x12,
            Command::Noron => 0x13,
            Command::Invoff => 0x20,
            Command::Invon => 0x21,
            Command::Dispoff => 0x28,
            Command::Dispon => 0x29,
            Command::Caset => 0x2A,
            Command::Raset => 0x2B,
            Command::Ramwr => 0x2C,
            Command::Ramrd => 0x2E,
            Command::Ptlar => 0x30,
            Command::Vscrdef => 0x33,
            Command::Colmod => 0x3A,
            Command::Madctl => 0x36,
            Command::Vscsad => 0x37,
        }
    }
}

} // verus!
