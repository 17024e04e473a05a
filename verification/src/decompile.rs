//! The decompiler: a pure function from the object tree and the external
//! symbol table to human-readable text.  Rendering never fails and never
//! depends on decoder-internal state.
//!
//! A stored real is displayed from the reconstruction
//! `mantissa / 4096 * 2^exponent`, negated when the sign nibble is one.
//! That formula is best-effort display only, not format-critical: the
//! value is rendered as an exact decimal wherever it fits a machine
//! double-word, and as `<mantissa>*2^<shift>` beyond that.

use vstd::prelude::*;

use crate::basic::{Complex, Real};
use crate::extable::{addr_lookup, Extable};
use crate::nibbles::hexdump_chars;
use crate::{view_obj, Obj, ObjV};
use vstd::string::StringExecFns;

verus! {

broadcast use vstd::std_specs::vec::axiom_vec_decreases_to_view, vstd::seq::axiom_seq_index_decreases;

/// The character for a digit value (decimal or lowercase hexadecimal).
pub open spec fn digit_char(d: nat) -> char {
    if d == 0 {
        '0'
    } else if d == 1 {
        '1'
    } else if d == 2 {
        '2'
    } else if d == 3 {
        '3'
    } else if d == 4 {
        '4'
    } else if d == 5 {
        '5'
    } else if d == 6 {
        '6'
    } else if d == 7 {
        '7'
    } else if d == 8 {
        '8'
    } else if d == 9 {
        '9'
    } else if d == 10 {
        'a'
    } else if d == 11 {
        'b'
    } else if d == 12 {
        'c'
    } else if d == 13 {
        'd'
    } else if d == 14 {
        'e'
    } else {
        'f'
    }
}

/// The decimal rendering of a value, most significant digit first, no
/// leading zeros.
pub open spec fn dec_chars(n: nat) -> Seq<char>
    decreases n,
{
    if n < 10 {
        seq![digit_char(n)]
    } else {
        dec_chars(n / 10).push(digit_char(n % 10))
    }
}

/// The lowercase hexadecimal rendering of a value.
pub open spec fn hex_chars(n: nat) -> Seq<char>
    decreases n,
{
    if n < 16 {
        seq![digit_char(n)]
    } else {
        hex_chars(n / 16).push(digit_char(n % 16))
    }
}

/// The decimal rendering of a signed value.
pub open spec fn int_chars(i: int) -> Seq<char> {
    if i < 0 {
        "-"@ + dec_chars((-i) as nat)
    } else {
        dec_chars(i as nat)
    }
}

/// Two to the power `e`.
pub open spec fn pow2(e: nat) -> nat
    decreases e,
{
    if e == 0 {
        1
    } else {
        2 * pow2((e - 1) as nat)
    }
}

/// Five to the power `e`.
pub open spec fn pow5(e: nat) -> nat
    decreases e,
{
    if e == 0 {
        1
    } else {
        5 * pow5((e - 1) as nat)
    }
}

pub proof fn lemma_pow2_le(e1: nat, e2: nat)
    requires
        e1 <= e2,
    ensures
        pow2(e1) <= pow2(e2),
    decreases e2,
{
    if e1 < e2 && e2 > 0 {
        lemma_pow2_le(e1, (e2 - 1) as nat);
    }
}

pub proof fn lemma_pow5_le(e1: nat, e2: nat)
    requires
        e1 <= e2,
    ensures
        pow5(e1) <= pow5(e2),
    decreases e2,
{
    if e1 < e2 && e2 > 0 {
        lemma_pow5_le(e1, (e2 - 1) as nat);
    }
}

/// Remove common factors of two between a fraction numerator and the power
/// of its power-of-two denominator.
pub open spec fn strip_twos(r: nat, k: nat) -> (nat, nat)
    decreases k,
{
    if k > 0 && r % 2 == 0 {
        strip_twos(r / 2, (k - 1) as nat)
    } else {
        (r, k)
    }
}

/// A run of zero characters.
pub open spec fn zero_chars(n: nat) -> Seq<char> {
    Seq::new(n, |_i: int| '0')
}

/// The shortest decimal digits of the fraction `r / 2^k` (`0 < r < 2^k`):
/// after removing common twos, the digits of `r' * 5^(k')` zero-padded to
/// `k'` places; the last digit is never zero.
pub open spec fn frac_chars(r: nat, k: nat) -> Seq<char> {
    let rk = strip_twos(r, k);
    let digits = dec_chars(rk.0 * pow5(rk.1));
    let pad: nat = if rk.1 >= digits.len() {
        (rk.1 - digits.len()) as nat
    } else {
        0
    };
    zero_chars(pad) + digits
}

/// The decimal rendering of the reconstructed real value
/// `m / 4096 * 2^e`, negated when `s` is one: an exact decimal literal
/// wherever the scaled mantissa fits a double machine word, with the
/// fractional part rendered without trailing zeros; for larger exponents a
/// `<mantissa>*2^<shift>` form (display is best-effort by design there).
pub open spec fn real_chars(m: nat, e: nat, s: nat) -> Seq<char> {
    let sign: Seq<char> = if s == 1 {
        "-"@
    } else {
        Seq::empty()
    };
    if m == 0 {
        sign + "0"@
    } else if e >= 12 {
        if e <= 75 {
            sign + dec_chars(m * pow2((e - 12) as nat))
        } else {
            sign + dec_chars(m) + "*2^"@ + dec_chars((e - 12) as nat)
        }
    } else {
        let k = (12 - e) as nat;
        let q = m / pow2(k);
        let r = m % pow2(k);
        if r == 0 {
            sign + dec_chars(q)
        } else {
            sign + dec_chars(q) + "."@ + frac_chars(r, k)
        }
    }
}

/// The decimal digits of a complex number: both parts, joined as a sum
/// with the imaginary unit.
pub open spec fn complex_chars(c: Complex) -> Seq<char> {
    real_chars(c.real.mantissa as nat, c.real.exponent as nat, c.real.sign as nat) + " + "@
        + real_chars(c.imag.mantissa as nat, c.imag.exponent as nat, c.imag.sign as nat) + "i"@
}

/// The one-character string of a digit value.
fn digit_str(d: u8) -> (r: &'static str)
    requires
        d < 16,
    ensures
        r@ == seq![digit_char(d as nat)],
{
    if d == 0 {
        proof {
            reveal_strlit("0");
        }
        "0"
    } else if d == 1 {
        proof {
            reveal_strlit("1");
        }
        "1"
    } else if d == 2 {
        proof {
            reveal_strlit("2");
        }
        "2"
    } else if d == 3 {
        proof {
            reveal_strlit("3");
        }
        "3"
    } else if d == 4 {
        proof {
            reveal_strlit("4");
        }
        "4"
    } else if d == 5 {
        proof {
            reveal_strlit("5");
        }
        "5"
    } else if d == 6 {
        proof {
            reveal_strlit("6");
        }
        "6"
    } else if d == 7 {
        proof {
            reveal_strlit("7");
        }
        "7"
    } else if d == 8 {
        proof {
            reveal_strlit("8");
        }
        "8"
    } else if d == 9 {
        proof {
            reveal_strlit("9");
        }
        "9"
    } else if d == 10 {
        proof {
            reveal_strlit("a");
        }
        "a"
    } else if d == 11 {
        proof {
            reveal_strlit("b");
        }
        "b"
    } else if d == 12 {
        proof {
            reveal_strlit("c");
        }
        "c"
    } else if d == 13 {
        proof {
            reveal_strlit("d");
        }
        "d"
    } else if d == 14 {
        proof {
            reveal_strlit("e");
        }
        "e"
    } else {
        proof {
            reveal_strlit("f");
        }
        "f"
    }
}

/// The decimal rendering of a double machine word.
pub fn dec_u128(n: u128) -> (r: String)
    ensures
        r@ == dec_chars(n as nat),
    decreases n,
{
    if n < 10 {
        String::from_str(digit_str(n as u8))
    } else {
        let mut s = dec_u128(n / 10);
        s.append(digit_str((n % 10) as u8));
        proof {
            assert(s@ =~= dec_chars(n as nat));
        }
        s
    }
}

/// The decimal rendering of a machine word.
pub fn dec_u64(n: u64) -> (r: String)
    ensures
        r@ == dec_chars(n as nat),
{
    dec_u128(n as u128)
}

/// The lowercase hexadecimal rendering of a word.
pub fn hex_u32(n: u32) -> (r: String)
    ensures
        r@ == hex_chars(n as nat),
    decreases n,
{
    if n < 16 {
        String::from_str(digit_str(n as u8))
    } else {
        let mut s = hex_u32(n / 16);
        s.append(digit_str((n % 16) as u8));
        proof {
            assert(s@ =~= hex_chars(n as nat));
        }
        s
    }
}

/// The decimal rendering of a signed value.
fn int_i128(i: i128) -> (r: String)
    ensures
        r@ == int_chars(i as int),
{
    if i >= 0 {
        let mut s = String::new();
        s.append(dec_u128(i as u128).as_str());
        proof {
            assert(s@ =~= int_chars(i as int));
        }
        s
    } else {
        let mag: u128 = ((-1 - i) as u128) + 1;
        let mut s = String::new();
        s.append("-");
        s.append(dec_u128(mag).as_str());
        proof {
            assert(mag == (-(i as int)) as nat);
            assert(s@ =~= int_chars(i as int));
        }
        s
    }
}

/// `m * 2^k`, for arguments whose product fits a double machine word.
fn mul_pow2(m: u128, k: u16) -> (r: u128)
    requires
        m as nat * pow2(k as nat) <= u128::MAX,
    ensures
        r as nat == m as nat * pow2(k as nat),
    decreases k,
{
    if k == 0 {
        proof {
            assert(m as nat * pow2(0) == m as nat) by (nonlinear_arith)
                requires
                    pow2(0) == 1,
            ;
        }
        m
    } else {
        proof {
            assert(pow2(k as nat) == 2 * pow2((k - 1) as nat));
            assert(m as nat * pow2((k - 1) as nat) <= u128::MAX) by (nonlinear_arith)
                requires
                    m as nat * pow2(k as nat) <= u128::MAX,
                    pow2(k as nat) == 2 * pow2((k - 1) as nat),
            ;
        }
        let rest = mul_pow2(m, k - 1);
        proof {
            assert(rest as nat == m as nat * pow2((k - 1) as nat));
            assert(2 * (m as nat * pow2((k - 1) as nat)) == m as nat * pow2(k as nat))
                by (nonlinear_arith)
                requires
                    pow2(k as nat) == 2 * pow2((k - 1) as nat),
            ;
            assert(2 * rest as nat == m as nat * pow2(k as nat));
        }
        2 * rest
    }
}

/// `2^k` as a machine word, for small `k`.
fn pow2_u64(k: u16) -> (r: u64)
    requires
        k <= 12,
    ensures
        r == pow2(k as nat),
        1 <= r <= 4096,
    decreases k,
{
    proof {
        reveal_with_fuel(pow2, 13);
        lemma_pow2_le(k as nat, 12);
    }
    if k == 0 {
        1
    } else {
        proof {
            lemma_pow2_le((k - 1) as nat, 12);
        }
        let rest = pow2_u64(k - 1);
        2 * rest
    }
}

/// `5^k` as a machine word, for small `k`.
fn pow5_u64(k: u16) -> (r: u64)
    requires
        k <= 12,
    ensures
        r == pow5(k as nat),
        1 <= r <= 244140625,
    decreases k,
{
    proof {
        reveal_with_fuel(pow5, 13);
        lemma_pow5_le(k as nat, 12);
    }
    if k == 0 {
        1
    } else {
        proof {
            lemma_pow5_le((k - 1) as nat, 12);
        }
        let rest = pow5_u64(k - 1);
        5 * rest
    }
}

proof fn lemma_pow2_63()
    ensures
        pow2(63) == 0x8000000000000000,
{
    reveal_with_fuel(pow2, 64);
}

/// Render the shortest decimal digits of the fraction `r / 2^k`.
fn frac_to_text(r: u64, k: u16) -> (s: String)
    requires
        0 < r < 4096,
        1 <= k <= 12,
    ensures
        s@ == frac_chars(r as nat, k as nat),
{
    let mut s = String::new();
    let mut rr: u64 = r;
    let mut kk: u16 = k;
    while rr % 2 == 0 && kk > 0
        invariant
            strip_twos(rr as nat, kk as nat) == strip_twos(r as nat, k as nat),
            rr <= r,
            kk <= k,
            r < 4096,
        decreases kk,
    {
        rr = rr / 2;
        kk = kk - 1;
    }
    proof {
        assert(strip_twos(rr as nat, kk as nat) == (rr as nat, kk as nat));
    }
    let p5 = pow5_u64(kk);
    proof {
        assert(rr as nat * p5 as nat <= 4095 * 244140625) by (nonlinear_arith)
            requires
                rr < 4096,
                p5 <= 244140625,
        ;
    }
    let f: u64 = rr * p5;
    let digits = dec_u64(f);
    let dl = digits.as_str().unicode_len();
    let mut z: usize = 0;
    let pad: usize = if (kk as usize) > dl {
        kk as usize - dl
    } else {
        0
    };
    proof {
        assert(s@ =~= zero_chars(0));
    }
    while z < pad
        invariant
            z <= pad,
            s@ == zero_chars(z as nat),
        decreases pad - z,
    {
        s.append("0");
        z = z + 1;
        proof {
            reveal_strlit("0");
            assert(s@ =~= zero_chars(z as nat));
        }
    }
    s.append(digits.as_str());
    proof {
        assert(digits@ == dec_chars((rr * p5) as nat));
        assert(s@ =~= frac_chars(r as nat, k as nat));
    }
    s
}

/// Render the reconstructed value of a stored real as a decimal literal.
#[verifier::rlimit(100)]
#[verifier::spinoff_prover]
pub fn real_to_text(m: u64, e: u16, sg: u8) -> (r: String)
    ensures
        r@ == real_chars(m as nat, e as nat, sg as nat),
{
    let mut s = String::new();
    if sg == 1 {
        s.append("-");
    }
    if m == 0 {
        s.append("0");
        proof {
            assert(s@ =~= real_chars(m as nat, e as nat, sg as nat));
        }
        return s;
    }
    if e >= 12 {
        if e <= 75 {
            proof {
                lemma_pow2_63();
                lemma_pow2_le((e - 12) as nat, 63);
                assert(m as nat * pow2((e - 12) as nat) <= u128::MAX) by (nonlinear_arith)
                    requires
                        m as nat <= u64::MAX,
                        pow2((e - 12) as nat) <= pow2(63),
                        pow2(63) == 0x8000000000000000,
                ;
            }
            let v = mul_pow2(m as u128, e - 12);
            s.append(dec_u128(v).as_str());
            proof {
                assert(s@ =~= real_chars(m as nat, e as nat, sg as nat));
            }
            s
        } else {
            s.append(dec_u64(m).as_str());
            s.append("*2^");
            s.append(dec_u64((e - 12) as u64).as_str());
            proof {
                assert(s@ =~= real_chars(m as nat, e as nat, sg as nat));
            }
            s
        }
    } else {
        let k: u16 = 12 - e;
        let p2k = pow2_u64(k);
        let q = m / p2k;
        let r = m % p2k;
        s.append(dec_u64(q).as_str());
        if r == 0 {
            proof {
                assert(s@ =~= real_chars(m as nat, e as nat, sg as nat));
            }
            return s;
        }
        s.append(".");
        s.append(frac_to_text(r, k).as_str());
        proof {
            assert(s@ =~= real_chars(m as nat, e as nat, sg as nat));
        }
        s
    }
}

/// The text of an array's dimension list: each size followed by a comma
/// and a space.
pub open spec fn dims_text(dims: Seq<usize>, i: int) -> Seq<char>
    decreases dims.len() - i,
{
    if i < 0 || i >= dims.len() {
        Seq::empty()
    } else {
        dec_chars(dims[i] as nat) + ", "@ + dims_text(dims, i + 1)
    }
}

/// The rendering of an object against a symbol table.  Arrays render their
/// element type tag, dimension count and sizes, then each element's
/// rendering; opaque objects render a type header and a hex-and-ASCII dump
/// of their payload; strings render verbatim; reals render their
/// reconstructed value; a program renders a header comment, then each
/// contained object on its own line; an external reference renders the
/// registered name or a tagged hexadecimal fallback; a terminator renders
/// as a semicolon; every other variant falls back to a short structural
/// dump.  Rendering never fails.
pub open spec fn obj_text(o: ObjV, t: Seq<(Seq<char>, u32)>) -> Seq<char>
    decreases o, 0int,
{
    match o {
        ObjV::Array(arr) => "Array of type "@ + hex_chars(arr.obj_type as nat) + ", with "@
            + dec_chars(arr.num_dims as nat) + " dimensions: ["@ + dims_text(arr.dims, 0) + "]\n"@
            + arr_items_text(arr.objects, t, 0),
        ObjV::ExtObj(code, blob, id) => "ExtObj of type "@ + hex_chars(code as nat) + " "@ + id
            + "\n"@ + hexdump_chars(blob, 0, usize::MAX as int),
        ObjV::CStr(s) => s,
        ObjV::Real(v) => real_chars(v.mantissa as nat, v.exponent as nat, v.sign as nat),
        ObjV::Complex(v) => complex_chars(v),
        ObjV::Prg(v) => "// Program:\n"@ + prg_items_text(v, t, 0),
        ObjV::Ext(code) => match addr_lookup(t, code) {
            Some(n) => n,
            None => "Ext"@ + hex_chars(code as nat),
        },
        ObjV::Semi => ";"@,
        ObjV::Dir(d) => "Directory("@ + dec_chars(d.entities.len()) + " entries)"@,
        ObjV::List(v) => "List("@ + dec_chars(v.len()) + " items)"@,
        ObjV::Symb(v) => "Symbolic("@ + dec_chars(v.len()) + " items)"@,
        ObjV::Unit(v) => "Unit("@ + dec_chars(v.len()) + " items)"@,
        ObjV::Int(i) => "Int("@ + int_chars(i as int) + ")"@,
        ObjV::Integer(i) => "Integer("@ + int_chars(i as int) + ")"@,
        ObjV::FixedObj(code, blob, id) => "FixedObj of type "@ + hex_chars(code as nat) + " "@ + id
            + "\n"@ + hexdump_chars(blob, 0, usize::MAX as int),
        ObjV::Code(b) => "Code("@ + dec_chars(b.len()) + " nibbles)"@,
        ObjV::GlobalName(s) => s,
        ObjV::LocalName(s) => s,
        ObjV::Tagged(s) => s,
        ObjV::Library(l) => "Library "@ + (match l.name {
            Some(n) => n,
            None => "(unnamed)"@,
        }) + " #"@ + dec_chars(l.number as nat),
    }
}

/// The renderings of a program's objects, one per line.
pub open spec fn prg_items_text(s: Seq<ObjV>, t: Seq<(Seq<char>, u32)>, i: int) -> Seq<char>
    decreases s, s.len() - i,
{
    if i < 0 || i >= s.len() {
        Seq::empty()
    } else {
        obj_text(s[i], t) + "\n"@ + prg_items_text(s, t, i + 1)
    }
}

/// The concatenated renderings of an array's elements.
pub open spec fn arr_items_text(s: Seq<ObjV>, t: Seq<(Seq<char>, u32)>, i: int) -> Seq<char>
    decreases s, s.len() - i,
{
    if i < 0 || i >= s.len() {
        Seq::empty()
    } else {
        obj_text(s[i], t) + arr_items_text(s, t, i + 1)
    }
}

/// Anything that renders itself as text against the symbol table.
pub trait Decompiled {
    /// The text this value renders to.
    spec fn decompiled(&self, t: &Extable) -> Seq<char>;

    /// Render this value; never fails.
    fn decompile(&self, t: &Extable) -> (r: String)
        ensures
            r@ == self.decompiled(t),
    ;
}

impl Decompiled for Real {
    open spec fn decompiled(&self, t: &Extable) -> Seq<char> {
        real_chars(self.mantissa as nat, self.exponent as nat, self.sign as nat)
    }

    fn decompile(&self, t: &Extable) -> (r: String) {
        real_to_text(self.mantissa, self.exponent, self.sign)
    }
}

impl Decompiled for Complex {
    open spec fn decompiled(&self, t: &Extable) -> Seq<char> {
        complex_chars(*self)
    }

    fn decompile(&self, t: &Extable) -> (r: String) {
        let mut s = real_to_text(self.real.mantissa, self.real.exponent, self.real.sign);
        s.append(" + ");
        s.append(real_to_text(self.imag.mantissa, self.imag.exponent, self.imag.sign).as_str());
        s.append("i");
        proof {
            assert(s@ =~= complex_chars(*self));
        }
        s
    }
}

impl Decompiled for Obj {
    open spec fn decompiled(&self, t: &Extable) -> Seq<char> {
        obj_text(view_obj(*self), t@)
    }

    fn decompile(&self, t: &Extable) -> (r: String) {
        decompile_obj(self, t)
    }
}

/// The renderings of a program's objects, one per line.
fn prg_items(v: &Vec<Obj>, t: &Extable, i: usize) -> (r: String)
    requires
        i <= v@.len(),
    ensures
        r@ == prg_items_text(crate::view_objs(v@), t@, i as int),
    decreases v, v@.len() - i,
{
    if i >= v.len() {
        let s = String::new();
        proof {
            assert(s@ =~= prg_items_text(crate::view_objs(v@), t@, i as int));
        }
        return s;
    }
    let mut s = decompile_obj(&v[i], t);
    s.append("\n");
    s.append(prg_items(v, t, i + 1).as_str());
    proof {
        assert(crate::view_objs(v@)[i as int] == view_obj(v@[i as int]));
        assert(s@ =~= prg_items_text(crate::view_objs(v@), t@, i as int));
    }
    s
}

/// The concatenated renderings of an array's elements.
fn arr_items(v: &Vec<Obj>, t: &Extable, i: usize) -> (r: String)
    requires
        i <= v@.len(),
    ensures
        r@ == arr_items_text(crate::view_objs(v@), t@, i as int),
    decreases v, v@.len() - i,
{
    if i >= v.len() {
        let s = String::new();
        proof {
            assert(s@ =~= arr_items_text(crate::view_objs(v@), t@, i as int));
        }
        return s;
    }
    let mut s = decompile_obj(&v[i], t);
    s.append(arr_items(v, t, i + 1).as_str());
    proof {
        assert(crate::view_objs(v@)[i as int] == view_obj(v@[i as int]));
        assert(s@ =~= arr_items_text(crate::view_objs(v@), t@, i as int));
    }
    s
}

/// The text of an array's dimension list.
fn dims_items(v: &Vec<usize>, i: usize) -> (r: String)
    requires
        i <= v@.len(),
    ensures
        r@ == dims_text(v@, i as int),
    decreases v@.len() - i,
{
    if i >= v.len() {
        let s = String::new();
        proof {
            assert(s@ =~= dims_text(v@, i as int));
        }
        return s;
    }
    let mut s = dec_u64(v[i] as u64);
    s.append(", ");
    s.append(dims_items(v, i + 1).as_str());
    proof {
        assert(s@ =~= dims_text(v@, i as int));
    }
    s
}

/// Render one object against a symbol table; rendering never fails.
#[verifier::rlimit(100)]
#[verifier::spinoff_prover]
fn decompile_obj(o: &Obj, t: &Extable) -> (r: String)
    ensures
        r@ == obj_text(view_obj(*o), t@),
    decreases o, 1int,
{
    match o {
        Obj::Array(arr) => {
            let mut s = String::new();
            s.append("Array of type ");
            s.append(hex_u32(arr.obj_type).as_str());
            s.append(", with ");
            s.append(dec_u64(arr.num_dims as u64).as_str());
            s.append(" dimensions: [");
            s.append(dims_items(&arr.dims, 0).as_str());
            s.append("]\n");
            s.append(arr_items(&arr.objects, t, 0).as_str());
            proof {
                assert(s@ =~= obj_text(view_obj(*o), t@));
            }
            s
        },
        Obj::ExtObj(code, blob, id) => {
            let mut s = String::new();
            s.append("ExtObj of type ");
            s.append(hex_u32(*code).as_str());
            s.append(" ");
            s.append(id.as_str());
            s.append("\n");
            // bind the buffer length so the dump's address bound is known
            let _n = blob.0.len();
            s.append(crate::nibbles::hexdump_nibbles(blob.0.as_slice(), 0, Some(usize::MAX)).as_str());
            proof {
                assert(s@ =~= obj_text(view_obj(*o), t@));
            }
            s
        },
        Obj::CStr(sb) => sb.0.clone(),
        Obj::Real(v) => real_to_text(v.mantissa, v.exponent, v.sign),
        Obj::Complex(v) => {
            let mut s = real_to_text(v.real.mantissa, v.real.exponent, v.real.sign);
            s.append(" + ");
            s.append(real_to_text(v.imag.mantissa, v.imag.exponent, v.imag.sign).as_str());
            s.append("i");
            proof {
                assert(s@ =~= obj_text(view_obj(*o), t@));
            }
            s
        },
        Obj::Prg(v) => {
            let mut s = String::new();
            s.append("// Program:\n");
            s.append(prg_items(v, t, 0).as_str());
            proof {
                assert(s@ =~= obj_text(view_obj(*o), t@));
            }
            s
        },
        Obj::Ext(code) => {
            match t.addr_to_name(*code) {
                Some(n) => {
                    proof {
                        assert(n@ =~= obj_text(view_obj(*o), t@));
                    }
                    n
                },
                None => {
                    let mut s = String::new();
                    s.append("Ext");
                    s.append(hex_u32(*code).as_str());
                    proof {
                        assert(s@ =~= obj_text(view_obj(*o), t@));
                    }
                    s
                },
            }
        },
        Obj::Semi() => {
            let s = String::from_str(";");
            s
        },
        Obj::Dir(d) => {
            let mut s = String::new();
            s.append("Directory(");
            s.append(dec_u64(d.entities.len() as u64).as_str());
            s.append(" entries)");
            proof {
                assert(crate::dir::view_dir(*d).entities.len() == d.entities@.len());
                assert(s@ =~= obj_text(view_obj(*o), t@));
            }
            s
        },
        Obj::List(v) => {
            let mut s = String::new();
            s.append("List(");
            s.append(dec_u64(v.len() as u64).as_str());
            s.append(" items)");
            proof {
                assert(crate::view_objs(v@).len() == v@.len());
                assert(s@ =~= obj_text(view_obj(*o), t@));
            }
            s
        },
        Obj::Symb(v) => {
            let mut s = String::new();
            s.append("Symbolic(");
            s.append(dec_u64(v.len() as u64).as_str());
            s.append(" items)");
            proof {
                assert(crate::view_objs(v@).len() == v@.len());
                assert(s@ =~= obj_text(view_obj(*o), t@));
            }
            s
        },
        Obj::Unit(v) => {
            let mut s = String::new();
            s.append("Unit(");
            s.append(dec_u64(v.len() as u64).as_str());
            s.append(" items)");
            proof {
                assert(crate::view_objs(v@).len() == v@.len());
                assert(s@ =~= obj_text(view_obj(*o), t@));
            }
            s
        },
        Obj::Int(i) => {
            let mut s = String::new();
            s.append("Int(");
            s.append(int_i128(*i as i128).as_str());
            s.append(")");
            proof {
                assert(s@ =~= obj_text(view_obj(*o), t@));
            }
            s
        },
        Obj::Integer(i) => {
            let mut s = String::new();
            s.append("Integer(");
            s.append(int_i128(*i).as_str());
            s.append(")");
            proof {
                assert(s@ =~= obj_text(view_obj(*o), t@));
            }
            s
        },
        Obj::FixedObj(code, blob, id) => {
            let mut s = String::new();
            s.append("FixedObj of type ");
            s.append(hex_u32(*code).as_str());
            s.append(" ");
            s.append(id.as_str());
            s.append("\n");
            // bind the buffer length so the dump's address bound is known
            let _n = blob.0.len();
            s.append(crate::nibbles::hexdump_nibbles(blob.0.as_slice(), 0, Some(usize::MAX)).as_str());
            proof {
                assert(s@ =~= obj_text(view_obj(*o), t@));
            }
            s
        },
        Obj::Code(b) => {
            let mut s = String::new();
            s.append("Code(");
            s.append(dec_u64(b.0.len() as u64).as_str());
            s.append(" nibbles)");
            proof {
                assert(s@ =~= obj_text(view_obj(*o), t@));
            }
            s
        },
        Obj::GlobalName(n) => n.clone(),
        Obj::LocalName(n) => n.clone(),
        Obj::Tagged(n) => n.clone(),
        Obj::Library(l) => {
            let mut s = String::new();
            s.append("Library ");
            match &l.name {
                Some(n) => {
                    s.append(n.as_str());
                },
                None => {
                    s.append("(unnamed)");
                },
            }
            s.append(" #");
            s.append(dec_u64(l.number as u64).as_str());
            proof {
                assert(s@ =~= obj_text(view_obj(*o), t@));
            }
            s
        },
    }
}

} // verus!
