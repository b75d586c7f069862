//! Direction-number parameters in the format published by Joe and Kuo:
//! one record per line, each line holding the dimension index `d`, the
//! polynomial degree `s`, the coefficient word `a`, and the `s` initial
//! direction values `m`, separated by whitespace. The bundled table ships
//! gzip-compressed and is decoded through `libflate`.

use vstd::prelude::*;
use vstd::slice::slice_subrange;
use vstd::string::StringSliceAdditionalSpecFns;

use crate::{coeff_bit, DimParams, ParamDimension, SobolParams};

verus! {

pub open spec fn is_ws(b: u8) -> bool {
    b == 32 || b == 9 || b == 10 || b == 13 || b == 11 || b == 12
}

pub open spec fn is_digit(b: u8) -> bool {
    48 <= b <= 57
}

/// The first position at or after `i` holding a non-whitespace byte, or the
/// end of `s`.
pub open spec fn skip_ws_idx(s: Seq<u8>, i: nat) -> nat
    decreases s.len() - i,
{
    if i >= s.len() {
        i
    } else if is_ws(s[i as int]) {
        skip_ws_idx(s, i + 1)
    } else {
        i
    }
}

/// The first position at or after `i` holding a whitespace byte, or the end
/// of `s`.
pub open spec fn token_end_idx(s: Seq<u8>, i: nat) -> nat
    decreases s.len() - i,
{
    if i >= s.len() {
        i
    } else if is_ws(s[i as int]) {
        i
    } else {
        token_end_idx(s, i + 1)
    }
}

proof fn lemma_skip_ws_bounds(s: Seq<u8>, i: nat)
    ensures
        i <= skip_ws_idx(s, i),
        i <= s.len() ==> skip_ws_idx(s, i) <= s.len(),
        skip_ws_idx(s, i) < s.len() ==> !is_ws(s[skip_ws_idx(s, i) as int]),
    decreases s.len() - i,
{
    if i < s.len() && is_ws(s[i as int]) {
        lemma_skip_ws_bounds(s, i + 1);
    }
}

proof fn lemma_token_end_bounds(s: Seq<u8>, i: nat)
    ensures
        i <= token_end_idx(s, i),
        i <= s.len() ==> token_end_idx(s, i) <= s.len(),
        i < s.len() && !is_ws(s[i as int]) ==> i + 1 <= token_end_idx(s, i),
    decreases s.len() - i,
{
    if i < s.len() && !is_ws(s[i as int]) {
        lemma_token_end_bounds(s, i + 1);
    }
}

/// The whitespace-separated tokens of `s` from position `i` on.
pub open spec fn tokens_from(s: Seq<u8>, i: nat) -> Seq<Seq<u8>>
    decreases s.len() - i,
    via tokens_from_decreases
{
    let a = skip_ws_idx(s, i);
    if a >= s.len() {
        Seq::empty()
    } else {
        let e = token_end_idx(s, a);
        seq![s.subrange(a as int, e as int)] + tokens_from(s, e)
    }
}

#[via_fn]
proof fn tokens_from_decreases(s: Seq<u8>, i: nat) {
    lemma_skip_ws_bounds(s, i);
    let a = skip_ws_idx(s, i);
    if a < s.len() {
        lemma_token_end_bounds(s, a);
    }
}

/// The numeric value of a decimal digit string.
pub open spec fn dec_val(t: Seq<u8>) -> nat
    decreases t.len(),
{
    if t.len() == 0 {
        0
    } else {
        (dec_val(t.drop_last()) * 10 + (t.last() - 48)) as nat
    }
}

pub open spec fn all_digits(t: Seq<u8>) -> bool {
    t.len() >= 1 && forall|i: int| 0 <= i < t.len() ==> is_digit(#[trigger] t[i])
}

/// A well-formed record line: at least the `d`, `s` and `a` columns, with
/// `d` fitting a `u16` and `a` and every initial direction value fitting a
/// `u32`. The second column is never read (the degree is the count of
/// direction values), so it is not constrained.
pub open spec fn wf_record(line: Seq<u8>) -> bool {
    let tk = tokens_from(line, 0);
    &&& tk.len() >= 3
    &&& all_digits(tk[0]) && dec_val(tk[0]) <= u16::MAX
    &&& all_digits(tk[2]) && dec_val(tk[2]) <= u32::MAX
    &&& forall|i: int|
        3 <= i < tk.len() ==> all_digits(#[trigger] tk[i]) && dec_val(tk[i]) <= u32::MAX
}

/// Whether `rec` holds exactly the values written on `line`.
pub open spec fn rec_matches(rec: JoeKuoD6Dim, line: Seq<u8>) -> bool {
    let tk = tokens_from(line, 0);
    &&& rec.d as nat == dec_val(tk[0])
    &&& rec.a as nat == dec_val(tk[2])
    &&& rec.m@.len() == tk.len() - 3
    &&& forall|i: int| 0 <= i < rec.m@.len() ==> (#[trigger] rec.m@[i]) as nat == dec_val(
        tk[i + 3],
    )
}

/** Parameters for a single dimension */
pub struct JoeKuoD6Dim {
    pub d: u16,
    pub a: u32,
    pub m: Vec<u32>,
}

impl ParamDimension for JoeKuoD6Dim {
    open spec fn params_view(&self) -> DimParams {
        DimParams {
            d: self.d,
            s: self.m@.len() as nat,
            coeffs: Seq::new(32, |i: int| (self.a >> (i as u32)) & 1u32 == 1u32),
            m: self.m@,
        }
    }

    fn d(&self) -> u16 {
        self.d
    }

    fn s(&self) -> usize {
        self.m.len()
    }

    fn coefficient(&self, i: usize) -> (r: u32) {
        if i >= 32 {
            0
        } else {
            let sh = self.a >> (i as u32);
            proof {
                assert(sh & 1 == 0 || sh & 1 == 1) by (bit_vector);
            }
            sh & 1
        }
    }

    fn m(&self, i: usize) -> u32 {
        self.m[i]
    }
}

fn is_ws_byte(b: u8) -> (r: bool)
    ensures
        r == is_ws(b),
{
    b == 32 || b == 9 || b == 10 || b == 13 || b == 11 || b == 12
}

fn scan_token_end(line: &[u8], start: usize) -> (e: usize)
    requires
        start < line@.len(),
        !is_ws(line@[start as int]),
    ensures
        e == token_end_idx(line@, start as nat),
        start < e <= line@.len(),
{
    let n = line.len();
    let mut j = start + 1;
    while j < n
        invariant
            start < j <= n,
            n == line@.len(),
            token_end_idx(line@, start as nat) == token_end_idx(line@, j as nat),
        decreases n - j,
    {
        if is_ws_byte(line[j]) {
            return j;
        }
        j += 1;
    }
    n
}

fn tokenize<'a>(line: &'a [u8]) -> (toks: Vec<&'a [u8]>)
    ensures
        toks@.len() == tokens_from(line@, 0).len(),
        forall|i: int| 0 <= i < toks@.len() ==> (#[trigger] toks@[i])@ == tokens_from(line@, 0)[i],
{
    let n = line.len();
    let mut toks: Vec<&[u8]> = Vec::new();
    let mut i: usize = 0;
    while i < n
        invariant
            i <= n,
            n == line@.len(),
            tokens_from(line@, 0) == toks@.map_values(|t: &[u8]| t@) + tokens_from(
                line@,
                i as nat,
            ),
            forall|j: int| 0 <= j < toks@.len() ==> (#[trigger] toks@[j])@ == tokens_from(
                line@,
                0,
            )[j],
        decreases n - i,
    {
        if is_ws_byte(line[i]) {
            proof {
                assert(skip_ws_idx(line@, i as nat) == skip_ws_idx(line@, (i + 1) as nat));
                assert(tokens_from(line@, i as nat) == tokens_from(line@, (i + 1) as nat));
            }
            i += 1;
        } else {
            let e = scan_token_end(line, i);
            let t = slice_subrange(line, i, e);
            let ghost pre = toks@;
            toks.push(t);
            proof {
                assert(skip_ws_idx(line@, i as nat) == i as nat);
                assert(tokens_from(line@, i as nat) == seq![t@] + tokens_from(line@, e as nat));
                assert(toks@.map_values(|x: &[u8]| x@) =~= pre.map_values(|x: &[u8]| x@) + seq![
                    t@,
                ]);
                assert(tokens_from(line@, 0) =~= toks@.map_values(|x: &[u8]| x@) + tokens_from(
                    line@,
                    e as nat,
                ));
            }
            i = e;
        }
    }
    proof {
        assert(tokens_from(line@, 0) =~= toks@.map_values(|t: &[u8]| t@));
    }
    toks
}

/// If every byte of `t` from `k` on is a digit, the prefix before `k` reads
/// as a value no larger than the whole string.
proof fn lemma_dec_val_prefix_le(t: Seq<u8>, k: nat)
    requires
        k <= t.len(),
        forall|j: int| k <= j < t.len() ==> is_digit(#[trigger] t[j]),
    ensures
        dec_val(t.subrange(0, k as int)) <= dec_val(t),
    decreases t.len() - k,
{
    if k == t.len() {
        assert(t.subrange(0, k as int) =~= t);
    } else {
        lemma_dec_val_prefix_le(t, k + 1);
        assert(t.subrange(0, (k + 1) as int).drop_last() =~= t.subrange(0, k as int));
        assert(t.subrange(0, (k + 1) as int).last() == t[k as int]);
    }
}

fn parse_u32_token(t: &[u8]) -> (r: Option<u32>)
    ensures
        match r {
            Option::Some(v) => all_digits(t@) && dec_val(t@) <= u32::MAX && v as nat == dec_val(
                t@,
            ),
            Option::None => !(all_digits(t@) && dec_val(t@) <= u32::MAX),
        },
{
    let n = t.len();
    if n == 0 {
        return Option::None;
    }
    let mut v: u64 = 0;
    let mut i: usize = 0;
    while i < n
        invariant
            i <= n,
            n == t@.len(),
            n >= 1,
            v <= u32::MAX,
            v as nat == dec_val(t@.subrange(0, i as int)),
            forall|j: int| 0 <= j < i ==> is_digit(#[trigger] t@[j]),
        decreases n - i,
    {
        let b = t[i];
        if b < 48 || b > 57 {
            return Option::None;
        }
        let v2 = v * 10 + (b - 48) as u64;
        proof {
            assert(t@.subrange(0, (i + 1) as int).drop_last() =~= t@.subrange(0, i as int));
            assert(t@.subrange(0, (i + 1) as int).last() == t@[i as int]);
        }
        if v2 > 0xFFFF_FFFF {
            proof {
                if all_digits(t@) {
                    lemma_dec_val_prefix_le(t@, (i + 1) as nat);
                }
            }
            return Option::None;
        }
        v = v2;
        i += 1;
    }
    proof {
        assert(t@.subrange(0, n as int) =~= t@);
    }
    Option::Some(v as u32)
}

fn parse_u16_token(t: &[u8]) -> (r: Option<u16>)
    ensures
        match r {
            Option::Some(v) => all_digits(t@) && dec_val(t@) <= u16::MAX && v as nat == dec_val(
                t@,
            ),
            Option::None => !(all_digits(t@) && dec_val(t@) <= u16::MAX),
        },
{
    match parse_u32_token(t) {
        Option::Some(v) => if v <= 0xFFFF {
            Option::Some(v as u16)
        } else {
            Option::None
        },
        Option::None => Option::None,
    }
}

/// Parses one record line. Returns `None` exactly on a malformed line: too
/// few columns, a non-numeric required column, or a value out of range.
pub fn parse_bytes(line: &[u8]) -> (r: Option<JoeKuoD6Dim>)
    ensures
        match r {
            Option::Some(rec) => wf_record(line@) && rec_matches(rec, line@),
            Option::None => !wf_record(line@),
        },
{
    let toks = tokenize(line);
    let ghost tk = tokens_from(line@, 0);
    if toks.len() < 3 {
        return Option::None;
    }
    let d_v = match parse_u16_token(toks[0]) {
        Option::Some(v) => v,
        Option::None => {
            return Option::None;
        },
    };
    let a_v = match parse_u32_token(toks[2]) {
        Option::Some(v) => v,
        Option::None => {
            return Option::None;
        },
    };
    let mut m: Vec<u32> = Vec::new();
    let mut i: usize = 3;
    while i < toks.len()
        invariant
            3 <= i <= toks@.len(),
            tk == tokens_from(line@, 0),
            toks@.len() == tk.len(),
            forall|j: int| 0 <= j < toks@.len() ==> (#[trigger] toks@[j])@ == tk[j],
            m@.len() == i - 3,
            forall|j: int|
                3 <= j < i ==> all_digits(#[trigger] tk[j]) && dec_val(tk[j]) <= u32::MAX,
            forall|j: int| 0 <= j < m@.len() ==> (#[trigger] m@[j]) as nat == dec_val(tk[j + 3]),
        decreases toks@.len() - i,
    {
        let mv = match parse_u32_token(toks[i]) {
            Option::Some(v) => v,
            Option::None => {
                return Option::None;
            },
        };
        m.push(mv);
        i += 1;
    }
    Option::Some(JoeKuoD6Dim { d: d_v, a: a_v, m })
}

impl JoeKuoD6Dim {
    /** Parses the dimensional parameters from a line in the format published by Joe and Kuo */
    pub fn parse(s: &str) -> (r: Option<JoeKuoD6Dim>)
        ensures
            match r {
                Option::Some(rec) => wf_record(s.spec_bytes()) && rec_matches(
                    rec,
                    s.spec_bytes(),
                ),
                Option::None => !wf_record(s.spec_bytes()),
            },
    {
        parse_bytes(s.as_bytes())
    }
}

/// The position of the first line break at or after `i`, or the end of `s`.
pub open spec fn line_end_idx(s: Seq<u8>, i: nat) -> nat
    decreases s.len() - i,
{
    if i >= s.len() {
        i
    } else if s[i as int] == 10 {
        i
    } else {
        line_end_idx(s, i + 1)
    }
}

proof fn lemma_line_end_bounds(s: Seq<u8>, i: nat)
    ensures
        i <= line_end_idx(s, i),
        i <= s.len() ==> line_end_idx(s, i) <= s.len(),
    decreases s.len() - i,
{
    if i < s.len() && s[i as int] != 10 {
        lemma_line_end_bounds(s, i + 1);
    }
}

/// A line with a trailing carriage return loses it.
pub open spec fn strip_cr(l: Seq<u8>) -> Seq<u8> {
    if l.len() >= 1 && l.last() == 13 {
        l.drop_last()
    } else {
        l
    }
}

/// The lines of `s` from position `i` on: segments separated by line breaks,
/// each with a trailing carriage return removed, a final unterminated
/// segment included and a final empty segment dropped.
pub open spec fn lines_from(s: Seq<u8>, i: nat) -> Seq<Seq<u8>>
    decreases s.len() + 1 - i,
    via lines_from_decreases
{
    if i >= s.len() {
        Seq::empty()
    } else {
        let e = line_end_idx(s, i);
        seq![strip_cr(s.subrange(i as int, e as int))] + lines_from(s, e + 1)
    }
}

#[via_fn]
proof fn lines_from_decreases(s: Seq<u8>, i: nat) {
    lemma_line_end_bounds(s, i);
}

/// A well-formed table: every line after the header parses as a record.
pub open spec fn wf_table(s: Seq<u8>) -> bool {
    let ls = lines_from(s, 0);
    forall|i: int| 1 <= i < ls.len() ==> wf_record(#[trigger] ls[i])
}

/// Whether provider `p` holds exactly the records written in table text `s`:
/// one record per line after the header, in order, and a maximum dimension
/// count of one more than the record count.
pub open spec fn table_matches(p: JoeKuoD6, s: Seq<u8>) -> bool {
    let ls = lines_from(s, 0);
    &&& p.dim_params@.len() == (if ls.len() >= 1 {
        (ls.len() - 1) as nat
    } else {
        0
    })
    &&& forall|j: int|
        0 <= j < p.dim_params@.len() ==> rec_matches(#[trigger] p.dim_params@[j], ls[j + 1])
}

pub struct JoeKuoD6 {
    pub dim_params: Vec<JoeKuoD6Dim>,
    pub max_dims: usize,
}

impl SobolParams for JoeKuoD6 {
    type Dim = JoeKuoD6Dim;

    open spec fn inv(&self) -> bool {
        self.max_dims as nat == self.dim_params@.len() + 1
    }

    open spec fn max_dims_spec(&self) -> nat {
        self.max_dims as nat
    }

    open spec fn dim_view(&self, dim: int) -> DimParams {
        self.dim_params@[dim - 2].params_view()
    }

    fn max_dims(&self) -> usize {
        self.max_dims
    }

    fn get_dim(&self, dim: usize) -> &JoeKuoD6Dim {
        &self.dim_params[dim - 2]
    }
}

fn scan_line_end(bytes: &[u8], start: usize) -> (e: usize)
    requires
        start <= bytes@.len(),
    ensures
        e == line_end_idx(bytes@, start as nat),
        start <= e <= bytes@.len(),
{
    let n = bytes.len();
    let mut j = start;
    while j < n
        invariant
            start <= j <= n,
            n == bytes@.len(),
            line_end_idx(bytes@, start as nat) == line_end_idx(bytes@, j as nat),
        decreases n - j,
    {
        if bytes[j] == 10 {
            return j;
        }
        j += 1;
    }
    n
}

/**
 * Builds the parameter set from table text: one record per line, the first
 * (header) line skipped. Returns `None` exactly when some record line is
 * malformed.
 */
#[verifier::rlimit(50)]
pub fn from_table_bytes(bytes: &[u8]) -> (r: Option<JoeKuoD6>)
    ensures
        match r {
            Option::Some(p) => wf_table(bytes@) && p.inv() && table_matches(p, bytes@),
            Option::None => !wf_table(bytes@),
        },
{
    let n = bytes.len();
    let ghost ls = lines_from(bytes@, 0);
    let mut dim_params: Vec<JoeKuoD6Dim> = Vec::new();
    let mut lineno: usize = 0;
    let mut i: usize = 0;
    proof {
        assert(ls.skip(0) =~= ls);
    }
    while i < n
        invariant
            i <= n,
            n == bytes@.len(),
            lineno <= i,
            ls == lines_from(bytes@, 0),
            lines_from(bytes@, i as nat) == ls.skip(lineno as int),
            lineno <= ls.len(),
            lineno >= 1 ==> dim_params@.len() == lineno - 1,
            lineno == 0 ==> dim_params@.len() == 0,
            forall|j: int| 1 <= j < lineno ==> wf_record(#[trigger] ls[j]),
            forall|j: int|
                0 <= j < dim_params@.len() ==> rec_matches(#[trigger] dim_params@[j], ls[j + 1]),
        decreases n - i,
    {
        let e = scan_line_end(bytes, i);
        let stop = if e > i && bytes[e - 1] == 13 {
            e - 1
        } else {
            e
        };
        let line = slice_subrange(bytes, i, stop);
        proof {
            let raw = bytes@.subrange(i as int, e as int);
            if e > i && bytes@[e - 1] == 13 {
                assert(raw.last() == 13);
                assert(line@ =~= raw.drop_last());
            } else {
                assert(line@ =~= raw);
            }
            assert(line@ == strip_cr(raw));
            let tail = lines_from(bytes@, (e + 1) as nat);
            assert(lines_from(bytes@, i as nat) == seq![line@] + tail);
            assert(ls.skip(lineno as int).len() == ls.len() - lineno);
            assert(lineno < ls.len());
            assert(ls.skip(lineno as int)[0] == ls[lineno as int]);
            assert(ls[lineno as int] == line@);
            assert forall|j: int| 0 <= j < tail.len() implies tail[j] == ls[lineno + 1 + j] by {
                assert((seq![line@] + tail)[j + 1] == tail[j]);
                assert(ls.skip(lineno as int)[j + 1] == ls[lineno as int + j + 1]);
            }
            assert(tail =~= ls.skip(lineno as int + 1));
            if e >= n {
                assert(lines_from(bytes@, n as nat) =~= tail);
            }
        }
        let ghost pre = dim_params@;
        if lineno > 0 {
            match parse_bytes(line) {
                Option::Some(rec) => {
                    dim_params.push(rec);
                },
                Option::None => {
                    return Option::None;
                },
            }
        }
        proof {
            assert forall|j: int| 0 <= j < dim_params@.len() implies rec_matches(
                #[trigger] dim_params@[j],
                ls[j + 1],
            ) by {
                if j < pre.len() {
                    assert(dim_params@[j] == pre[j]);
                } else {
                    assert(j + 1 == lineno as int);
                }
            }
        }
        lineno += 1;
        i = if e < n {
            e + 1
        } else {
            n
        };
    }
    proof {
        assert(lines_from(bytes@, n as nat) =~= Seq::<Seq<u8>>::empty());
        assert(ls.skip(lineno as int).len() == 0);
        assert(lineno == ls.len());
    }
    let max_dims = dim_params.len() + 1;
    Option::Some(JoeKuoD6 { dim_params, max_dims })
}

/// What the gzip decoder yields on the inputs it accepts: a function of the
/// compressed bytes alone.
pub uninterp spec fn gunzip_of(b: Seq<u8>) -> Seq<u8>;

/// Relies on `libflate::gzip::Decoder` (`Decoder::new` and its `io::Read`
/// impl, driven by `read_to_end`): decoding a gzip stream either fails or
/// yields output determined by the input bytes alone.
#[verifier::external_body]
fn gunzip(bytes: &[u8]) -> (r: Option<Vec<u8>>)
    ensures
        r matches Option::Some(v) ==> v@ == gunzip_of(bytes@),
{
    match libflate::gzip::Decoder::new(bytes) {
        Ok(mut dec) => {
            let mut out = Vec::new();
            match std::io::Read::read_to_end(&mut dec, &mut out) {
                Ok(_) => Some(out),
                Err(_) => None,
            }
        },
        Err(_) => None,
    }
}

/// The bundled gzip-compressed table: the leading records of the published
/// Joe–Kuo D6 parameter table, behind a header line.
pub open spec fn bundled_table_gz() -> Seq<u8> {
    seq![
        31u8, 139, 8, 0, 0, 0, 0, 0, 2, 3, 75, 81, 40, 86, 72, 84, 200, 141, 207, 228, 50, 82,
        48, 84, 48, 80, 48, 228, 50, 86, 0, 177, 12, 21, 140, 185, 76, 20, 140, 33, 44, 160, 168,
        169, 2, 76, 220, 144, 203, 76, 193, 4, 194, 2, 138, 25, 115, 1, 0, 195, 147, 109, 131,
        66, 0, 0, 0,
    ]
}

fn bundled_table_bytes() -> (r: Vec<u8>)
    ensures
        r@ == bundled_table_gz(),
{
    let v: Vec<u8> = vec![
        31u8, 139, 8, 0, 0, 0, 0, 0, 2, 3, 75, 81, 40, 86, 72, 84, 200, 141, 207, 228, 50, 82,
        48, 84, 48, 80, 48, 228, 50, 86, 0, 177, 12, 21, 140, 185, 76, 20, 140, 33, 44, 160, 168,
        169, 2, 76, 220, 144, 203, 76, 193, 4, 194, 2, 138, 25, 115, 1, 0, 195, 147, 109, 131,
        66, 0, 0, 0,
    ];
    proof {
        assert(v@ =~= bundled_table_gz());
    }
    v
}

impl JoeKuoD6 {
    /**
     * Loads the bundled parameter records: the leading dimensions of the
     * published Joe–Kuo D6 table, shipped gzip-compressed. Returns `None`
     * when decompression fails or a record line is malformed.
     */
    pub fn standard() -> (r: Option<JoeKuoD6>)
        ensures
            r matches Option::Some(p) ==> p.inv() && wf_table(gunzip_of(bundled_table_gz()))
                && table_matches(p, gunzip_of(bundled_table_gz())),
    {
        let data = bundled_table_bytes();
        match gunzip(data.as_slice()) {
            Option::Some(text) => from_table_bytes(text.as_slice()),
            Option::None => Option::None,
        }
    }
}

} // verus!
