use fractalx::float::Single;
use fractalx::mandelbrot::PaletteUniforms;
use fractalx::palette::{Coeffs, Coloring, Palette};

fn single(v: f32) -> Single {
    Single { bits: v.to_bits() }
}

fn value(s: Single) -> f32 {
    f32::from_bits(s.bits)
}

/// The palette formula on the CPU.
fn eval(palette: Palette, t: f32, freq: f32, phase: f32) -> [u8; 3] {
    let rows = palette.coeffs().map(|row| row.map(value));
    let [a, b, c, d] = rows;
    let x = t * freq + phase;
    let mut rgb = [0u8; 3];
    for i in 0..3 {
        let v = a[i] + b[i] * (6.2831853 * (c[i] * x + d[i])).cos();
        rgb[i] = (v.clamp(0.0, 1.0) * 255.0) as u8;
    }
    rgb
}

/// `Classic` must reproduce 0.5 + 0.5*cos(2*pi*(t*freq + offset + phase)) so
/// existing bookmarks keep rendering identically.
#[test]
fn classic_matches_original_formula() {
    for &(t, freq, phase) in &[(0.0f32, 1.0f32, 0.0f32), (0.37, 2.5, 0.6), (5.1, 0.3, 0.9)] {
        let mut expected = [0u8; 3];
        for (i, base) in [0.0f32, 0.33, 0.67].iter().enumerate() {
            let v = 0.5 + 0.5 * (6.2831853 * (t * freq + base + phase)).cos();
            expected[i] = (v.clamp(0.0, 1.0) * 255.0) as u8;
        }
        assert_eq!(eval(Palette::Classic, t, freq, phase), expected);
    }
}

fn custom() -> Coeffs {
    Coeffs {
        a: [0.6, 0.5, 0.4].map(single),
        b: [0.3, 0.4, 0.5].map(single),
        c: [1.0, 2.0, 0.5].map(single),
        d: [0.1, 0.2, 0.3].map(single),
    }
}

#[test]
fn custom_coefficients_drive_rendering_as_edited() {
    let palette = Palette::Custom(custom());
    let rows = palette.coeffs().map(|row| row.map(value));
    assert_eq!(rows[0], [0.6, 0.5, 0.4, 0.0]);
    assert_eq!(rows[2], [1.0, 2.0, 0.5, 0.0]);
    assert!(Coeffs::from_rows(palette.coeffs()).equals(custom()));
}

#[test]
fn presets_hold_their_coefficients() {
    let rows = |p: Palette| p.coeffs().map(|row| row.map(value));
    let half = [0.5, 0.5, 0.5, 0.0];
    let one = [1.0, 1.0, 1.0, 0.0];
    assert_eq!(rows(Palette::Classic), [half, half, one, [0.0, 0.33, 0.67, 0.0]]);
    assert_eq!(rows(Palette::Sunset), [half, half, one, [0.0, 0.10, 0.20, 0.0]]);
    assert_eq!(
        rows(Palette::Fire),
        [half, half, [1.0, 0.7, 0.4, 0.0], [0.0, 0.15, 0.20, 0.0]]
    );
    assert_eq!(
        rows(Palette::Electric),
        [half, half, [2.0, 1.0, 0.0, 0.0], [0.5, 0.20, 0.25, 0.0]]
    );
    assert_eq!(
        rows(Palette::Pastel),
        [
            [0.8, 0.5, 0.4, 0.0],
            [0.2, 0.4, 0.2, 0.0],
            [2.0, 1.0, 1.0, 0.0],
            [0.0, 0.25, 0.25, 0.0]
        ]
    );
    assert_eq!(rows(Palette::Grayscale), [half, half, one, [0.0; 4]]);
}

#[test]
fn palettes_are_listed_and_named() {
    let names: Vec<&str> = Palette::all().iter().map(|p| p.name()).collect();
    assert_eq!(
        names,
        vec!["Classic", "Sunset", "Fire", "Electric", "Pastel", "Grayscale"]
    );
    assert_eq!(Palette::Custom(custom()).name(), "Custom");
    assert!(Palette::default().equals(Palette::Classic));
}

#[test]
fn editing_starts_from_the_preset() {
    for preset in Palette::all() {
        let edited = Palette::Custom(Coeffs::from_rows(preset.coeffs()));
        assert_eq!(edited.coeffs(), preset.coeffs());
        // But it is a palette of its own.
        assert!(!edited.equals(preset));
    }
}

#[test]
fn colorings_are_compared_by_number() {
    let coloring = |palette: Palette, freq: f32, phase: f32| Coloring {
        palette,
        freq: single(freq),
        phase: single(phase),
    };
    let base = coloring(Palette::Fire, 1.0, 0.0);
    assert!(base.equals(coloring(Palette::Fire, 1.0, -0.0)));
    assert!(!base.equals(coloring(Palette::Fire, 1.5, 0.0)));
    assert!(!base.equals(coloring(Palette::Fire, 1.0, 0.5)));
    assert!(!base.equals(coloring(Palette::Pastel, 1.0, 0.0)));
    let nan = coloring(Palette::Fire, f32::NAN, 0.0);
    assert!(!nan.equals(nan));
    let mut other = custom();
    other.d[2] = single(0.35);
    assert!(!Palette::Custom(custom()).equals(Palette::Custom(other)));
}

#[test]
fn the_color_pass_gets_rows_frequency_and_phase() {
    let uniforms = PaletteUniforms::new(Coloring {
        palette: Palette::Sunset,
        freq: single(2.0),
        phase: single(0.25),
    });
    let rows = Palette::Sunset.coeffs();
    assert_eq!([uniforms.a, uniforms.b, uniforms.c, uniforms.d], rows);
    assert_eq!(value(uniforms.freq), 2.0);
    assert_eq!(value(uniforms.phase), 0.25);
}
