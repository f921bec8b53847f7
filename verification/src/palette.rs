//! Shared color palettes: named cosine-gradient presets.
//!
//! Every palette is `a + b*cos(2*pi*(c*x + d))` per RGB channel, where
//! `x = t * freq + phase` (the frequency and phase settings modulate any
//! preset). All renderers evaluate this formula from the same coefficients.

use vstd::prelude::*;

use crate::float::Single;

verus! {

/// Editable cosine-gradient coefficients: one row per `a`/`b`/`c`/`d`, RGB
/// columns.
#[derive(Clone, Copy, Debug)]
pub struct Coeffs {
    pub a: [Single; 3],
    pub b: [Single; 3],
    pub c: [Single; 3],
    pub d: [Single; 3],
}

/// Numeric equality of a row.
pub open spec fn row_eq_num(a: [Single; 3], b: [Single; 3]) -> bool {
    a@[0].eq_num(b@[0]) && a@[1].eq_num(b@[1]) && a@[2].eq_num(b@[2])
}

fn rows_equal(a: [Single; 3], b: [Single; 3]) -> (r: bool)
    ensures
        r == row_eq_num(a, b),
{
    a[0].equals(b[0]) && a[1].equals(b[1]) && a[2].equals(b[2])
}

impl Coeffs {
    /// The four rows are these.
    pub open spec fn is(
        self,
        a: Seq<Single>,
        b: Seq<Single>,
        c: Seq<Single>,
        d: Seq<Single>,
    ) -> bool {
        self.a@ == a && self.b@ == b && self.c@ == c && self.d@ == d
    }

    /// Numeric equality of all coefficients.
    pub open spec fn eq_num(self, other: Coeffs) -> bool {
        &&& row_eq_num(self.a, other.a)
        &&& row_eq_num(self.b, other.b)
        &&& row_eq_num(self.c, other.c)
        &&& row_eq_num(self.d, other.d)
    }

    /// `==` on the coefficients.
    pub fn equals(self, other: Coeffs) -> (r: bool)
        ensures
            r == self.eq_num(other),
    {
        rows_equal(self.a, other.a) && rows_equal(self.b, other.b) && rows_equal(self.c, other.c)
            && rows_equal(self.d, other.d)
    }

    /// From the padded rows `coeffs()` returns (padding dropped).
    pub fn from_rows(rows: [[Single; 4]; 4]) -> (coeffs: Coeffs)
        ensures
            coeffs.is(
                rows@[0]@.take(3),
                rows@[1]@.take(3),
                rows@[2]@.take(3),
                rows@[3]@.take(3),
            ),
    {
        Coeffs {
            a: unpad(rows[0]),
            b: unpad(rows[1]),
            c: unpad(rows[2]),
            d: unpad(rows[3]),
        }
    }
}

fn unpad(row: [Single; 4]) -> (r: [Single; 3])
    ensures
        r@ == row@.take(3),
{
    let r = [row[0], row[1], row[2]];
    assert(r@ =~= row@.take(3));
    r
}

fn pad(row: [Single; 3]) -> (r: [Single; 4])
    ensures
        r@ == padded(row@),
{
    let r = [row[0], row[1], row[2], Single { bits: 0 }];
    assert(r@ =~= padded(row@));
    r
}

/// A row of three coefficients, padded with zero to four.
pub open spec fn padded(row: Seq<Single>) -> Seq<Single> {
    row.push(Single { bits: 0 })
}

/// A padded row by the bits of its coefficients.
pub open spec fn row_of(r: u32, g: u32, b: u32) -> Seq<Single> {
    padded(seq![Single { bits: r }, Single { bits: g }, Single { bits: b }])
}

fn row(r: u32, g: u32, b: u32) -> (row: [Single; 4])
    ensures
        row@ == row_of(r, g, b),
{
    pad([Single { bits: r }, Single { bits: g }, Single { bits: b }])
}

/// A palette: a named preset, or `Custom` coefficients from the editor.
#[derive(Clone, Copy, Debug)]
pub enum Palette {
    Classic,
    Sunset,
    Fire,
    Electric,
    Pastel,
    Grayscale,
    Custom(Coeffs),
}

impl Palette {
    /// Coefficient rows `[a, b, c, d]`.
    pub open spec fn rows(self) -> Seq<Seq<Single>> {
        match self {
            Palette::Classic => seq![
                row_of(0x3F00_0000, 0x3F00_0000, 0x3F00_0000),
                row_of(0x3F00_0000, 0x3F00_0000, 0x3F00_0000),
                row_of(0x3F80_0000, 0x3F80_0000, 0x3F80_0000),
                row_of(0x0000_0000, 0x3EA8_F5C3, 0x3F2B_851F),
            ],
            Palette::Sunset => seq![
                row_of(0x3F00_0000, 0x3F00_0000, 0x3F00_0000),
                row_of(0x3F00_0000, 0x3F00_0000, 0x3F00_0000),
                row_of(0x3F80_0000, 0x3F80_0000, 0x3F80_0000),
                row_of(0x0000_0000, 0x3DCC_CCCD, 0x3E4C_CCCD),
            ],
            Palette::Fire => seq![
                row_of(0x3F00_0000, 0x3F00_0000, 0x3F00_0000),
                row_of(0x3F00_0000, 0x3F00_0000, 0x3F00_0000),
                row_of(0x3F80_0000, 0x3F33_3333, 0x3ECC_CCCD),
                row_of(0x0000_0000, 0x3E19_999A, 0x3E4C_CCCD),
            ],
            Palette::Electric => seq![
                row_of(0x3F00_0000, 0x3F00_0000, 0x3F00_0000),
                row_of(0x3F00_0000, 0x3F00_0000, 0x3F00_0000),
                row_of(0x4000_0000, 0x3F80_0000, 0x0000_0000),
                row_of(0x3F00_0000, 0x3E4C_CCCD, 0x3E80_0000),
            ],
            Palette::Pastel => seq![
                row_of(0x3F4C_CCCD, 0x3F00_0000, 0x3ECC_CCCD),
                row_of(0x3E4C_CCCD, 0x3ECC_CCCD, 0x3E4C_CCCD),
                row_of(0x4000_0000, 0x3F80_0000, 0x3F80_0000),
                row_of(0x0000_0000, 0x3E80_0000, 0x3E80_0000),
            ],
            Palette::Grayscale => seq![
                row_of(0x3F00_0000, 0x3F00_0000, 0x3F00_0000),
                row_of(0x3F00_0000, 0x3F00_0000, 0x3F00_0000),
                row_of(0x3F80_0000, 0x3F80_0000, 0x3F80_0000),
                row_of(0x0000_0000, 0x0000_0000, 0x0000_0000),
            ],
            Palette::Custom(k) => seq![padded(k.a@), padded(k.b@), padded(k.c@), padded(k.d@)],
        }
    }

    /// The named presets, in menu order (`Custom` is entered by editing).
    pub fn all() -> (all: [Palette; 6])
        ensures
            all@ == seq![
                Palette::Classic,
                Palette::Sunset,
                Palette::Fire,
                Palette::Electric,
                Palette::Pastel,
                Palette::Grayscale,
            ],
    {
        let all = [
            Palette::Classic,
            Palette::Sunset,
            Palette::Fire,
            Palette::Electric,
            Palette::Pastel,
            Palette::Grayscale,
        ];
        assert(all@ =~= seq![
            Palette::Classic,
            Palette::Sunset,
            Palette::Fire,
            Palette::Electric,
            Palette::Pastel,
            Palette::Grayscale,
        ]);
        all
    }

    pub fn name(self) -> (name: &'static str)
        ensures
            name@ == match self {
                Palette::Classic => "Classic"@,
                Palette::Sunset => "Sunset"@,
                Palette::Fire => "Fire"@,
                Palette::Electric => "Electric"@,
                Palette::Pastel => "Pastel"@,
                Palette::Grayscale => "Grayscale"@,
                Palette::Custom(_) => "Custom"@,
            },
    {
        match self {
            Palette::Classic => "Classic",
            Palette::Sunset => "Sunset",
            Palette::Fire => "Fire",
            Palette::Electric => "Electric",
            Palette::Pastel => "Pastel",
            Palette::Grayscale => "Grayscale",
            Palette::Custom(_) => "Custom",
        }
    }

    /// Coefficient rows `[a, b, c, d]`, each padded to 4 numbers so they can
    /// be uploaded directly as 4-component vectors. The numbers of a preset
    /// are the bits of those named beside them.
    pub fn coeffs(self) -> (rows: [[Single; 4]; 4])
        ensures
            rows@[0]@ == self.rows()[0],
            rows@[1]@ == self.rows()[1],
            rows@[2]@ == self.rows()[2],
            rows@[3]@ == self.rows()[3],
    {
        match self {
            Palette::Classic => [
                row(0x3F00_0000, 0x3F00_0000, 0x3F00_0000),  // 0.5, 0.5, 0.5
                row(0x3F00_0000, 0x3F00_0000, 0x3F00_0000),  // 0.5, 0.5, 0.5
                row(0x3F80_0000, 0x3F80_0000, 0x3F80_0000),  // 1.0, 1.0, 1.0
                row(0x0000_0000, 0x3EA8_F5C3, 0x3F2B_851F),  // 0.0, 0.33, 0.67
            ],
            Palette::Sunset => [
                row(0x3F00_0000, 0x3F00_0000, 0x3F00_0000),  // 0.5, 0.5, 0.5
                row(0x3F00_0000, 0x3F00_0000, 0x3F00_0000),  // 0.5, 0.5, 0.5
                row(0x3F80_0000, 0x3F80_0000, 0x3F80_0000),  // 1.0, 1.0, 1.0
                row(0x0000_0000, 0x3DCC_CCCD, 0x3E4C_CCCD),  // 0.0, 0.1, 0.2
            ],
            Palette::Fire => [
                row(0x3F00_0000, 0x3F00_0000, 0x3F00_0000),  // 0.5, 0.5, 0.5
                row(0x3F00_0000, 0x3F00_0000, 0x3F00_0000),  // 0.5, 0.5, 0.5
                row(0x3F80_0000, 0x3F33_3333, 0x3ECC_CCCD),  // 1.0, 0.7, 0.4
                row(0x0000_0000, 0x3E19_999A, 0x3E4C_CCCD),  // 0.0, 0.15, 0.2
            ],
            Palette::Electric => [
                row(0x3F00_0000, 0x3F00_0000, 0x3F00_0000),  // 0.5, 0.5, 0.5
                row(0x3F00_0000, 0x3F00_0000, 0x3F00_0000),  // 0.5, 0.5, 0.5
                row(0x4000_0000, 0x3F80_0000, 0x0000_0000),  // 2.0, 1.0, 0.0
                row(0x3F00_0000, 0x3E4C_CCCD, 0x3E80_0000),  // 0.5, 0.2, 0.25
            ],
            Palette::Pastel => [
                row(0x3F4C_CCCD, 0x3F00_0000, 0x3ECC_CCCD),  // 0.8, 0.5, 0.4
                row(0x3E4C_CCCD, 0x3ECC_CCCD, 0x3E4C_CCCD),  // 0.2, 0.4, 0.2
                row(0x4000_0000, 0x3F80_0000, 0x3F80_0000),  // 2.0, 1.0, 1.0
                row(0x0000_0000, 0x3E80_0000, 0x3E80_0000),  // 0.0, 0.25, 0.25
            ],
            Palette::Grayscale => [
                row(0x3F00_0000, 0x3F00_0000, 0x3F00_0000),  // 0.5, 0.5, 0.5
                row(0x3F00_0000, 0x3F00_0000, 0x3F00_0000),  // 0.5, 0.5, 0.5
                row(0x3F80_0000, 0x3F80_0000, 0x3F80_0000),  // 1.0, 1.0, 1.0
                row(0x0000_0000, 0x0000_0000, 0x0000_0000),  // 0.0, 0.0, 0.0
            ],
            Palette::Custom(k) => [pad(k.a), pad(k.b), pad(k.c), pad(k.d)],
        }
    }

    /// Numeric equality: the same preset, or equal custom coefficients.
    pub open spec fn eq_num(self, other: Palette) -> bool {
        match (self, other) {
            (Palette::Classic, Palette::Classic) => true,
            (Palette::Sunset, Palette::Sunset) => true,
            (Palette::Fire, Palette::Fire) => true,
            (Palette::Electric, Palette::Electric) => true,
            (Palette::Pastel, Palette::Pastel) => true,
            (Palette::Grayscale, Palette::Grayscale) => true,
            (Palette::Custom(k), Palette::Custom(l)) => k.eq_num(l),
            _ => false,
        }
    }

    /// `==` on palettes.
    pub fn equals(self, other: Palette) -> (r: bool)
        ensures
            r == self.eq_num(other),
    {
        match (self, other) {
            (Palette::Classic, Palette::Classic) => true,
            (Palette::Sunset, Palette::Sunset) => true,
            (Palette::Fire, Palette::Fire) => true,
            (Palette::Electric, Palette::Electric) => true,
            (Palette::Pastel, Palette::Pastel) => true,
            (Palette::Grayscale, Palette::Grayscale) => true,
            (Palette::Custom(k), Palette::Custom(l)) => k.equals(l),
            _ => false,
        }
    }
}

impl Default for Palette {
    fn default() -> (palette: Palette)
        ensures
            palette is Classic,
    {
        Palette::Classic
    }
}

/// A palette with its frequency and phase: all that coloring depends on.
#[derive(Clone, Copy, Debug)]
pub struct Coloring {
    pub palette: Palette,
    pub freq: Single,
    pub phase: Single,
}

impl Coloring {
    /// Numeric equality.
    pub open spec fn eq_num(self, other: Coloring) -> bool {
        &&& self.palette.eq_num(other.palette)
        &&& self.freq.eq_num(other.freq)
        &&& self.phase.eq_num(other.phase)
    }

    /// `==` on colorings.
    pub fn equals(self, other: Coloring) -> (r: bool)
        ensures
            r == self.eq_num(other),
    {
        self.palette.equals(other.palette) && self.freq.equals(other.freq) && self.phase.equals(
            other.phase,
        )
    }
}

/// Coefficients are equal where every one of the twelve is.
pub proof fn law_coefficients_are_equal_one_by_one(a: Coeffs, b: Coeffs)
    ensures
        a.eq_num(b) <==> forall|i: int|
            0 <= i < 3 ==> a.a@[i].eq_num(#[trigger] b.a@[i]) && a.b@[i].eq_num(b.b@[i])
                && a.c@[i].eq_num(b.c@[i]) && a.d@[i].eq_num(b.d@[i]),
{
    if a.eq_num(b) {
    } else {
        assert(a.a@[0].eq_num(b.a@[0]) && a.b@[0].eq_num(b.b@[0]) && a.c@[0].eq_num(b.c@[0])
            && a.d@[0].eq_num(b.d@[0]) ==> !(a.a@[1].eq_num(b.a@[1]) && a.b@[1].eq_num(b.b@[1])
            && a.c@[1].eq_num(b.c@[1]) && a.d@[1].eq_num(b.d@[1])) || !(a.a@[2].eq_num(b.a@[2])
            && a.b@[2].eq_num(b.b@[2]) && a.c@[2].eq_num(b.c@[2]) && a.d@[2].eq_num(b.d@[2])));
    }
}

/// Palettes are equal where they are the same preset, or both custom with
/// equal coefficients.
pub proof fn law_palettes_are_equal_by_name_or_coefficients(a: Palette, b: Palette)
    ensures
        a !is Custom && b !is Custom ==> (a.eq_num(b) <==> a == b),
        a is Custom != b is Custom ==> !a.eq_num(b),
        a is Custom && b is Custom ==> (a.eq_num(b) <==> (a->Custom_0).eq_num(b->Custom_0)),
{
}

/// Colorings are equal in palette, frequency and phase.
pub proof fn law_colorings_are_equal_in_every_part(a: Coloring, b: Coloring)
    ensures
        a.eq_num(b) <==> a.palette.eq_num(b.palette) && a.freq.eq_num(b.freq) && a.phase.eq_num(
            b.phase,
        ),
{
}

/// Every palette has four rows of three coefficients, each padded with a zero.
pub proof fn law_rows_are_padded_with_zero(palette: Palette, i: int)
    requires
        0 <= i < 4,
    ensures
        palette.rows().len() == 4,
        palette.rows()[i].len() == 4,
        palette.rows()[i][3].bits == 0,
{
}

/// A single stands for some hundredths: it is the nearest to them.
pub open spec fn is_hundredths(x: Single, n: int) -> bool {
    if n == 0 {
        x.bits == 0
    } else {
        let exponent = x.bits as int / 0x80_0000;
        let significand = 0x80_0000 + x.bits as int % 0x80_0000;
        let one = vstd::arithmetic::power2::pow2((150 - exponent) as nat);
        &&& 118 <= exponent <= 128
        &&& -100 <= 2 * (100 * significand - n * one) <= 100
    }
}

/// A row of coefficients in hundredths.
pub open spec fn row_in_hundredths(row: Seq<Single>, r: int, g: int, b: int) -> bool {
    is_hundredths(row[0], r) && is_hundredths(row[1], g) && is_hundredths(row[2], b)
}

/// The presets by their coefficients, in hundredths.
pub proof fn law_the_presets_in_numbers()
    ensures
        ({
            let rows = Palette::Classic.rows();
            &&& row_in_hundredths(rows[0], 50, 50, 50)
            &&& row_in_hundredths(rows[1], 50, 50, 50)
            &&& row_in_hundredths(rows[2], 100, 100, 100)
            &&& row_in_hundredths(rows[3], 0, 33, 67)
        }),
        ({
            let rows = Palette::Sunset.rows();
            &&& row_in_hundredths(rows[0], 50, 50, 50)
            &&& row_in_hundredths(rows[1], 50, 50, 50)
            &&& row_in_hundredths(rows[2], 100, 100, 100)
            &&& row_in_hundredths(rows[3], 0, 10, 20)
        }),
        ({
            let rows = Palette::Fire.rows();
            &&& row_in_hundredths(rows[0], 50, 50, 50)
            &&& row_in_hundredths(rows[1], 50, 50, 50)
            &&& row_in_hundredths(rows[2], 100, 70, 40)
            &&& row_in_hundredths(rows[3], 0, 15, 20)
        }),
        ({
            let rows = Palette::Electric.rows();
            &&& row_in_hundredths(rows[0], 50, 50, 50)
            &&& row_in_hundredths(rows[1], 50, 50, 50)
            &&& row_in_hundredths(rows[2], 200, 100, 0)
            &&& row_in_hundredths(rows[3], 50, 20, 25)
        }),
        ({
            let rows = Palette::Pastel.rows();
            &&& row_in_hundredths(rows[0], 80, 50, 40)
            &&& row_in_hundredths(rows[1], 20, 40, 20)
            &&& row_in_hundredths(rows[2], 200, 100, 100)
            &&& row_in_hundredths(rows[3], 0, 25, 25)
        }),
        ({
            let rows = Palette::Grayscale.rows();
            &&& row_in_hundredths(rows[0], 50, 50, 50)
            &&& row_in_hundredths(rows[1], 50, 50, 50)
            &&& row_in_hundredths(rows[2], 100, 100, 100)
            &&& row_in_hundredths(rows[3], 0, 0, 0)
        }),
{
    vstd::arithmetic::power2::lemma2_to64();
    assert(is_hundredths(Single { bits: 0x3F00_0000 }, 50));
    assert(is_hundredths(Single { bits: 0x3F80_0000 }, 100));
    assert(is_hundredths(Single { bits: 0x4000_0000 }, 200));
    assert(is_hundredths(Single { bits: 0x3EA8_F5C3 }, 33));
    assert(is_hundredths(Single { bits: 0x3F2B_851F }, 67));
    assert(is_hundredths(Single { bits: 0x3DCC_CCCD }, 10));
    assert(is_hundredths(Single { bits: 0x3E4C_CCCD }, 20));
    assert(is_hundredths(Single { bits: 0x3F33_3333 }, 70));
    assert(is_hundredths(Single { bits: 0x3ECC_CCCD }, 40));
    assert(is_hundredths(Single { bits: 0x3E19_999A }, 15));
    assert(is_hundredths(Single { bits: 0x3E80_0000 }, 25));
    assert(is_hundredths(Single { bits: 0x3F4C_CCCD }, 80));
}

/// Custom coefficients come back from their own rows.
pub proof fn law_custom_rows_hold_the_coefficients(k: Coeffs)
    ensures
        k.is(
            Palette::Custom(k).rows()[0].take(3),
            Palette::Custom(k).rows()[1].take(3),
            Palette::Custom(k).rows()[2].take(3),
            Palette::Custom(k).rows()[3].take(3),
        ),
{
    assert(padded(k.a@).take(3) =~= k.a@);
    assert(padded(k.b@).take(3) =~= k.b@);
    assert(padded(k.c@).take(3) =~= k.c@);
    assert(padded(k.d@).take(3) =~= k.d@);
}

/// Turning a palette into a custom one, by its own rows, changes no
/// coefficient: the editor starts from what is on screen.
pub proof fn law_custom_starts_from_the_preset(palette: Palette, k: Coeffs)
    requires
        k.is(
            palette.rows()[0].take(3),
            palette.rows()[1].take(3),
            palette.rows()[2].take(3),
            palette.rows()[3].take(3),
        ),
    ensures
        Palette::Custom(k).rows() == palette.rows(),
{
    assert forall|i: int| 0 <= i < 4 implies #[trigger] padded(palette.rows()[i].take(3))
        == palette.rows()[i] by {
        assert(palette.rows()[i].len() == 4);
        assert(palette.rows()[i][3] == Single { bits: 0 });
        assert(padded(palette.rows()[i].take(3)) =~= palette.rows()[i]);
    }
    assert(Palette::Custom(k).rows() =~= seq![
        padded(palette.rows()[0].take(3)),
        padded(palette.rows()[1].take(3)),
        padded(palette.rows()[2].take(3)),
        padded(palette.rows()[3].take(3)),
    ]);
    assert(Palette::Custom(k).rows() =~= palette.rows());
}

} // verus!
