use rs_hp4x::{Complex, Decompiled, Extable, Obj, Real};

#[test]
fn test_decompile_real() {
    let r = Obj::Real(Real { exponent: 0, mantissa: 0x1000, sign: 0 });
    let extable = Extable::new();
    assert_eq!(r.decompile(&extable), "1");
}

#[test]
fn test_decompile_complex() {
    let r = Obj::Complex(Complex {
        real: Real { exponent: 0, mantissa: 0x1000, sign: 0 },
        imag: Real { exponent: 0, mantissa: 0x1000, sign: 0 },
    });
    let extable = Extable::new();
    assert_eq!(r.decompile(&extable), "1 + 1i");
}

#[test]
fn test_decompile_ext() {
    let r = Obj::Ext(0x1234);
    let mut extable = Extable::new();
    extable.insert("test".to_string(), 0x1234);
    assert_eq!(r.decompile(&extable), "test");
    let r = Obj::Ext(0x1235);
    assert_eq!(r.decompile(&extable), "Ext1235");
}

#[test]
fn test_decompile_semi() {
    let r = Obj::Semi();
    let extable = Extable::new();
    assert_eq!(r.decompile(&extable), ";");
}

#[test]
fn test_decompile_prg() {
    let r = Obj::Prg(vec![
        Obj::Real(Real { exponent: 0, mantissa: 0x1000, sign: 0 }),
        Obj::Semi(),
    ]);
    let extable = Extable::new();
    assert_eq!(r.decompile(&extable), "// Program:\n1\n;\n");
}

#[test]
fn test_decompile_real_fraction() {
    // 0x1800 / 4096 = 1.5: the fractional part is rendered exactly and
    // without trailing zeros.
    let r = Obj::Real(Real { exponent: 0, mantissa: 0x1800, sign: 0 });
    let extable = Extable::new();
    assert_eq!(r.decompile(&extable), "1.5");
}

#[test]
fn test_decompile_real_negative() {
    let r = Obj::Real(Real { exponent: 0, mantissa: 0x1800, sign: 1 });
    let extable = Extable::new();
    assert_eq!(r.decompile(&extable), "-1.5");
}

#[test]
fn test_decompile_real_negative_zero() {
    let r = Obj::Real(Real { exponent: 3, mantissa: 0, sign: 1 });
    let extable = Extable::new();
    assert_eq!(r.decompile(&extable), "-0");
}

#[test]
fn test_decompile_real_scaled_up() {
    // 0x1000 / 4096 * 2^13 = 8192.
    let r = Obj::Real(Real { exponent: 13, mantissa: 0x1000, sign: 0 });
    let extable = Extable::new();
    assert_eq!(r.decompile(&extable), "8192");
}

#[test]
fn test_decompile_real_small_fraction() {
    // 1 / 4096 = 0.000244140625.
    let r = Obj::Real(Real { exponent: 0, mantissa: 1, sign: 0 });
    let extable = Extable::new();
    assert_eq!(r.decompile(&extable), "0.000244140625");
}

#[test]
fn test_decompile_cstr_verbatim() {
    let r = Obj::CStr(rs_hp4x::StringBlob("hello".to_string()));
    let extable = Extable::new();
    assert_eq!(r.decompile(&extable), "hello");
}

#[test]
fn test_decompile_global_name() {
    let r = Obj::GlobalName("FOO".to_string());
    let extable = Extable::new();
    assert_eq!(r.decompile(&extable), "FOO");
}
