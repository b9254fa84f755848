use vstd::prelude::*;
use crate::text::chars_to_string;

verus! {

/// Numbers keep nine decimal places: a number is stored as its value times this scale.
pub const SCALE: u128 = 1_000_000_000;

/// Largest magnitude of a stored (scaled) number; the value itself stays within 10^20.
pub const LIMIT: u128 = 100_000_000_000_000_000_000_000_000_000;

pub open spec fn abs(x: int) -> int {
    if x < 0 { -x } else { x }
}

/// A magnitude with the sign of a product or quotient of `a` and `b`.
pub open spec fn signed(a: int, b: int, m: int) -> int {
    if (a < 0) != (b < 0) { -m } else { m }
}

pub open spec fn in_range(v: int) -> bool {
    abs(v) <= LIMIT
}

/// The scaled sum; `None` when it leaves the range.
pub open spec fn add_spec(a: int, b: int) -> Option<int> {
    if in_range(a + b) { Some(a + b) } else { None }
}

pub open spec fn sub_spec(a: int, b: int) -> Option<int> {
    if in_range(a - b) { Some(a - b) } else { None }
}

/// The scaled product, rounded toward zero to nine decimal places.
pub open spec fn mul_spec(a: int, b: int) -> Option<int> {
    if abs(a) * abs(b) <= LIMIT * SCALE {
        Some(signed(a, b, abs(a) * abs(b) / SCALE as int))
    } else {
        None
    }
}

/// The scaled quotient of a non-zero divisor, rounded toward zero to nine decimal places.
pub open spec fn div_spec(a: int, b: int) -> Option<int>
    recommends
        b != 0,
{
    if abs(a) * SCALE / abs(b) <= LIMIT {
        Some(signed(a, b, abs(a) * SCALE / abs(b)))
    } else {
        None
    }
}

pub open spec fn digit_char(d: int) -> char {
    (d + '0' as int) as char
}

/// Decimal digits of `n`, most significant first, without leading zeros.
pub open spec fn nat_digits(n: nat) -> Seq<char>
    decreases n,
{
    if n < 10 {
        seq![digit_char(n as int)]
    } else {
        nat_digits(n / 10).push(digit_char((n % 10) as int))
    }
}

/// The last `w` decimal digits of `n`, zero-padded.
pub open spec fn fixed_digits(n: nat, w: nat) -> Seq<char>
    decreases w,
{
    if w == 0 {
        Seq::empty()
    } else {
        fixed_digits(n / 10, (w - 1) as nat).push(digit_char((n % 10) as int))
    }
}

/// Drops trailing '0' characters.
pub open spec fn trim_zeros(s: Seq<char>) -> Seq<char>
    decreases s.len(),
{
    if s.len() > 0 && s.last() == '0' {
        trim_zeros(s.drop_last())
    } else {
        s
    }
}

/// Text of a non-negative scaled magnitude: the integer part, then a point and the
/// fraction without trailing zeros when the fraction is not zero.
pub open spec fn magnitude_text(m: nat) -> Seq<char> {
    let int_part = nat_digits(m / SCALE as nat);
    let frac = (m % SCALE as nat) as nat;
    if frac == 0 {
        int_part
    } else {
        int_part + seq!['.'] + trim_zeros(fixed_digits(frac, 9))
    }
}

/// The decimal text of a scaled number, as `print` shows it.
pub open spec fn number_text(v: int) -> Seq<char> {
    if v < 0 {
        seq!['-'] + magnitude_text((-v) as nat)
    } else {
        magnitude_text(v as nat)
    }
}

pub open spec fn is_digit(c: char) -> bool {
    '0' <= c <= '9'
}

pub open spec fn all_digits(s: Seq<char>) -> bool {
    forall|i: int| 0 <= i < s.len() ==> is_digit(#[trigger] s[i])
}

/// The integer that a run of decimal digits denotes.
pub open spec fn digits_value(s: Seq<char>) -> int
    decreases s.len(),
{
    if s.len() == 0 {
        0
    } else {
        digits_value(s.drop_last()) * 10 + (s.last() as int - '0' as int)
    }
}

/// Nine fraction digits: the first nine of `f`, padded with zeros.
pub open spec fn frac_nine(f: Seq<char>) -> Seq<char> {
    if f.len() >= 9 {
        f.subrange(0, 9)
    } else {
        f + Seq::new((9 - f.len()) as nat, |i: int| '0')
    }
}

/// A number lexeme: digits, optionally followed by a point and at least one digit.
pub open spec fn valid_lexeme(s: Seq<char>) -> bool {
    all_digits(s) && s.len() > 0 || exists|k: int|
        0 < k < s.len() - 1 && s[k] == '.' && all_digits(s.subrange(0, k)) && all_digits(
            s.subrange(k + 1, s.len() as int),
        )
}

/// Position of the decimal point of a lexeme, or its length when there is none.
pub open spec fn point_pos(s: Seq<char>) -> int
    decreases s.len(),
{
    if s.len() == 0 {
        0
    } else if s[0] == '.' {
        0
    } else {
        1 + point_pos(s.drop_first())
    }
}

/// The scaled value of a number lexeme; fraction digits past the ninth are dropped.
pub open spec fn lexeme_value(s: Seq<char>) -> int {
    let k = point_pos(s);
    if k >= s.len() {
        digits_value(s) * SCALE
    } else {
        digits_value(s.subrange(0, k)) * SCALE + digits_value(
            frac_nine(s.subrange(k + 1, s.len() as int)),
        )
    }
}

/// A number of the language: a decimal with nine places, of magnitude at most 10^20.
#[derive(Clone, Copy, PartialEq, Eq, Debug, Structural)]
pub struct Number {
    scaled: i128,
}

impl View for Number {
    type V = int;

    /// The number times `SCALE`.
    closed spec fn view(&self) -> int {
        self.scaled as int
    }
}

impl Number {
    #[verifier::type_invariant]
    spec fn inv(&self) -> bool {
        in_range(self.scaled as int)
    }

    /// The number whose scaled value is `v`.
    pub fn from_scaled(v: i128) -> (r: Option<Number>)
        ensures
            r matches Some(n) ==> n@ == v,
            r is Some <==> in_range(v as int),
    {
        if -(LIMIT as i128) <= v && v <= LIMIT as i128 {
            Some(Number { scaled: v })
        } else {
            None
        }
    }

    /// The whole number `i`.
    pub fn from_int(i: i64) -> (r: Number)
        ensures
            r@ == i * SCALE,
    {
        assert(abs(i * SCALE) <= LIMIT) by (nonlinear_arith)
            requires
                -9223372036854775808 <= i <= 9223372036854775807,
        ;
        let v = i as i128 * SCALE as i128;
        Number { scaled: v }
    }

    pub fn scaled(&self) -> (r: i128)
        ensures
            r == self@,
    {
        self.scaled
    }

    pub fn is_zero(&self) -> (r: bool)
        ensures
            r == (self@ == 0),
    {
        self.scaled == 0
    }

    pub fn neg(&self) -> (r: Number)
        ensures
            r@ == -self@,
    {
        proof {
            use_type_invariant(self);
        }
        Number { scaled: -self.scaled }
    }

    pub fn add(&self, o: &Number) -> (r: Option<Number>)
        ensures
            r matches Some(n) ==> add_spec(self@, o@) == Some(n@),
            r is None <==> add_spec(self@, o@) is None,
    {
        proof {
            use_type_invariant(self);
            use_type_invariant(o);
        }
        Number::from_scaled(self.scaled + o.scaled)
    }

    pub fn sub(&self, o: &Number) -> (r: Option<Number>)
        ensures
            r matches Some(n) ==> sub_spec(self@, o@) == Some(n@),
            r is None <==> sub_spec(self@, o@) is None,
    {
        proof {
            use_type_invariant(self);
            use_type_invariant(o);
        }
        Number::from_scaled(self.scaled - o.scaled)
    }

    fn magnitude(&self) -> (r: u128)
        ensures
            r == abs(self@),
            r <= LIMIT,
    {
        proof {
            use_type_invariant(self);
        }
        if self.scaled < 0 {
            (-self.scaled) as u128
        } else {
            self.scaled as u128
        }
    }

    fn with_sign(a: &Number, b: &Number, m: u128) -> (r: Number)
        requires
            m <= LIMIT,
        ensures
            r@ == signed(a@, b@, m as int),
    {
        if (a.scaled < 0) != (b.scaled < 0) {
            Number { scaled: -(m as i128) }
        } else {
            Number { scaled: m as i128 }
        }
    }

    pub fn mul(&self, o: &Number) -> (r: Option<Number>)
        ensures
            r matches Some(n) ==> mul_spec(self@, o@) == Some(n@),
            r is None <==> mul_spec(self@, o@) is None,
    {
        let a = self.magnitude();
        let b = o.magnitude();
        match a.checked_mul(b) {
            None => None,
            Some(p) => {
                if p <= LIMIT * SCALE {
                    let m = p / SCALE;
                    assert(m <= LIMIT) by (nonlinear_arith)
                        requires
                            p <= LIMIT * SCALE,
                            m == p / SCALE,
                    ;
                    Some(Number::with_sign(self, o, m))
                } else {
                    None
                }
            },
        }
    }

    /// Quotient by a non-zero divisor.
    pub fn div(&self, o: &Number) -> (r: Option<Number>)
        requires
            o@ != 0,
        ensures
            r matches Some(n) ==> div_spec(self@, o@) == Some(n@),
            r is None <==> div_spec(self@, o@) is None,
    {
        let a = self.magnitude();
        let b = o.magnitude();
        assert(a * SCALE <= LIMIT * SCALE) by (nonlinear_arith)
            requires
                a <= LIMIT,
        ;
        let m = (a * SCALE) / b;
        if m <= LIMIT {
            Some(Number::with_sign(self, o, m))
        } else {
            None
        }
    }

    pub fn lt(&self, o: &Number) -> (r: bool)
        ensures
            r == (self@ < o@),
    {
        self.scaled < o.scaled
    }

    pub fn le(&self, o: &Number) -> (r: bool)
        ensures
            r == (self@ <= o@),
    {
        self.scaled <= o.scaled
    }

    pub fn equals(&self, o: &Number) -> (r: bool)
        ensures
            r == (self@ == o@),
    {
        self.scaled == o.scaled
    }

    /// The decimal text of the number.
    pub fn to_text(&self) -> (r: String)
        ensures
            r@ == number_text(self@),
    {
        let v = self.text_chars();
        chars_to_string(&v)
    }

    pub fn text_chars(&self) -> (r: Vec<char>)
        ensures
            r@ == number_text(self@),
    {
        let mut out: Vec<char> = Vec::new();
        let m = self.magnitude();
        if self.scaled < 0 {
            out.push('-');
        }
        write_magnitude(m, &mut out);
        proof {
            if self@ < 0 {
                assert(out@ =~= seq!['-'] + magnitude_text(abs(self@) as nat));
            }
        }
        out
    }

    /// The number a lexeme denotes; `None` when it is no lexeme or out of range.
    pub fn from_lexeme(s: &Vec<char>) -> (r: Option<Number>)
        ensures
            r matches Some(n) ==> n@ == lexeme_value(s@),
            r is Some <==> valid_lexeme(s@) && lexeme_value(s@) <= LIMIT,
    {
        let n = s.len();
        let mut k: usize = 0;
        while k < n && s[k] != '.'
            invariant
                k <= n == s@.len(),
                forall|j: int| 0 <= j < k ==> s@[j] != '.',
            decreases n - k,
        {
            k += 1;
        }
        proof {
            lemma_point_pos(s@, k as int);
        }
        let int_part = copy_range(s, 0, k);
        let has_point = k < n;
        let frac_part = if has_point {
            copy_range(s, k + 1, n)
        } else {
            Vec::new()
        };
        if k == 0 || !all_digit_chars(&int_part) || (has_point && (k + 1 == n
            || !all_digit_chars(&frac_part))) {
            proof {
                lemma_no_lexeme(s@, k as int);
            }
            return None;
        }
        let nine = pad_nine(&frac_part);
        proof {
            assert(all_digits(nine@));
            lemma_nine_bound(nine@);
            reveal_with_fuel(pow10, 10);
            assert(pow10(9) == 1_000_000_000);
            if has_point {
                assert(valid_lexeme(s@));
            } else {
                assert(s@.subrange(0, k as int) =~= s@);
            }
        }
        let frac_val: u128 = if has_point {
            match digits_to_int(&nine) {
                Some(v) => v,
                None => {
                    return None;
                },
            }
        } else {
            0
        };
        let int_val = match digits_to_int(&int_part) {
            Some(v) => v,
            None => {
                proof {
                    assert(digits_value(int_part@) * SCALE >= digits_value(int_part@))
                        by (nonlinear_arith)
                        requires
                            digits_value(int_part@) >= 0,
                    ;
                    assert(lexeme_value(s@) >= digits_value(int_part@) * SCALE);
                }
                return None;
            },
        };
        assert(int_val * SCALE <= LIMIT * SCALE) by (nonlinear_arith)
            requires
                int_val <= LIMIT,
        ;
        let total = int_val * SCALE + frac_val;
        if total <= LIMIT {
            Some(Number { scaled: total as i128 })
        } else {
            None
        }
    }
}

proof fn lemma_point_pos(s: Seq<char>, k: int)
    requires
        0 <= k <= s.len(),
        k == s.len() || s[k] == '.',
        forall|j: int| 0 <= j < k ==> s[j] != '.',
    ensures
        point_pos(s) == k,
    decreases s.len(),
{
    if s.len() > 0 && k > 0 {
        lemma_point_pos(s.drop_first(), k - 1);
    }
}

/// A lexeme's point is its first '.': one that fails the checks at `k` fails them all.
proof fn lemma_no_lexeme(s: Seq<char>, k: int)
    requires
        0 <= k <= s.len(),
        k == s.len() || s[k] == '.',
        forall|j: int| 0 <= j < k ==> s[j] != '.',
        !(0 < k && all_digits(s.subrange(0, k)) && (k == s.len() || (k < s.len() - 1
            && all_digits(s.subrange(k + 1, s.len() as int))))),
    ensures
        !valid_lexeme(s),
{
    if all_digits(s) && s.len() > 0 {
        if k < s.len() {
            assert(is_digit(s[k]));
        }
        assert(s.subrange(0, k) =~= s);
    }
    if exists|k2: int|
        0 < k2 < s.len() - 1 && s[k2] == '.' && all_digits(s.subrange(0, k2)) && all_digits(
            s.subrange(k2 + 1, s.len() as int),
        ) {
        let k2 = choose|k2: int|
            0 < k2 < s.len() - 1 && s[k2] == '.' && all_digits(s.subrange(0, k2)) && all_digits(
                s.subrange(k2 + 1, s.len() as int),
            );
        if k2 < k {
            assert(s[k2] != '.');
        } else if k2 > k {
            assert(is_digit(s.subrange(0, k2)[k]));
        }
    }
}

proof fn lemma_nonneg(s: Seq<char>)
    requires
        all_digits(s),
    ensures
        digits_value(s) >= 0,
    decreases s.len(),
{
    if s.len() > 0 {
        assert(all_digits(s.drop_last()));
        lemma_nonneg(s.drop_last());
    }
}

proof fn lemma_nine_bound(s: Seq<char>)
    requires
        all_digits(s),
    ensures
        0 <= digits_value(s) < pow10(s.len()),
    decreases s.len(),
{
    if s.len() > 0 {
        assert(all_digits(s.drop_last()));
        lemma_nine_bound(s.drop_last());
        assert(is_digit(s[s.len() - 1]));
    }
}

pub open spec fn pow10(n: nat) -> int
    decreases n,
{
    if n == 0 { 1 } else { 10 * pow10((n - 1) as nat) }
}

proof fn lemma_prefix_le(s: Seq<char>, j: int)
    requires
        all_digits(s),
        0 <= j <= s.len(),
    ensures
        digits_value(s.subrange(0, j)) <= digits_value(s),
    decreases s.len(),
{
    if j < s.len() {
        let t = s.drop_last();
        assert(all_digits(t));
        lemma_prefix_le(t, j);
        lemma_nonneg(t);
        assert(t.subrange(0, j) =~= s.subrange(0, j));
        assert(is_digit(s.last()));
    } else {
        assert(s.subrange(0, j) =~= s);
    }
}

pub(crate) fn copy_range(s: &Vec<char>, lo: usize, hi: usize) -> (r: Vec<char>)
    requires
        lo <= hi <= s@.len(),
    ensures
        r@ == s@.subrange(lo as int, hi as int),
{
    let mut r: Vec<char> = Vec::new();
    let mut i = lo;
    while i < hi
        invariant
            lo <= i <= hi <= s@.len(),
            r@ == s@.subrange(lo as int, i as int),
        decreases hi - i,
    {
        r.push(s[i]);
        i += 1;
        proof {
            assert(r@ =~= s@.subrange(lo as int, i as int));
        }
    }
    r
}

fn all_digit_chars(s: &Vec<char>) -> (r: bool)
    ensures
        r == all_digits(s@),
{
    let mut i: usize = 0;
    while i < s.len()
        invariant
            i <= s@.len(),
            forall|j: int| 0 <= j < i ==> is_digit(s@[j]),
        decreases s@.len() - i,
    {
        if !('0' <= s[i] && s[i] <= '9') {
            return false;
        }
        i += 1;
    }
    true
}

fn pad_nine(f: &Vec<char>) -> (r: Vec<char>)
    requires
        all_digits(f@),
    ensures
        r@ == frac_nine(f@),
        r@.len() == 9,
{
    let mut r: Vec<char> = Vec::new();
    let mut i: usize = 0;
    while i < 9
        invariant
            i <= 9,
            r@.len() == i,
            forall|j: int| 0 <= j < i ==> #[trigger] r@[j] == frac_nine(f@)[j],
        decreases 9 - i,
    {
        if i < f.len() {
            r.push(f[i]);
        } else {
            r.push('0');
        }
        i += 1;
    }
    proof {
        assert(r@ =~= frac_nine(f@));
    }
    r
}

/// The value of a run of digits; `None` when it exceeds `LIMIT`.
fn digits_to_int(s: &Vec<char>) -> (r: Option<u128>)
    requires
        all_digits(s@),
    ensures
        r matches Some(v) ==> v == digits_value(s@) && v <= LIMIT,
        r is None <==> digits_value(s@) > LIMIT,
{
    let mut acc: u128 = 0;
    let mut i: usize = 0;
    while i < s.len()
        invariant
            i <= s@.len(),
            all_digits(s@),
            acc == digits_value(s@.subrange(0, i as int)),
            acc <= LIMIT,
        decreases s@.len() - i,
    {
        let d = s[i];
        assert(is_digit(d));
        acc = acc * 10 + (d as u32 - '0' as u32) as u128;
        i += 1;
        proof {
            assert(s@.subrange(0, i as int).drop_last() =~= s@.subrange(0, i - 1));
        }
        if acc > LIMIT {
            proof {
                lemma_prefix_le(s@, i as int);
            }
            return None;
        }
    }
    proof {
        assert(s@.subrange(0, i as int) =~= s@);
    }
    Some(acc)
}

pub(crate) fn write_digits(n: u128, out: &mut Vec<char>)
    ensures
        final(out)@ == old(out)@ + nat_digits(n as nat),
    decreases n,
{
    if n >= 10 {
        write_digits(n / 10, out);
    }
    out.push(((n % 10) as u8 + 48u8) as char);
    proof {
        assert(out@ =~= old(out)@ + nat_digits(n as nat));
    }
}

fn write_fixed(n: u128, w: u32, out: &mut Vec<char>)
    ensures
        final(out)@ == old(out)@ + fixed_digits(n as nat, w as nat),
    decreases w,
{
    if w > 0 {
        write_fixed(n / 10, w - 1, out);
        out.push(((n % 10) as u8 + 48u8) as char);
    }
    proof {
        assert(out@ =~= old(out)@ + fixed_digits(n as nat, w as nat));
    }
}

fn trim_trailing_zeros(out: &mut Vec<char>, keep: usize)
    requires
        keep <= old(out)@.len(),
    ensures
        final(out)@ == old(out)@.subrange(0, keep as int) + trim_zeros(
            old(out)@.subrange(keep as int, old(out)@.len() as int),
        ),
{
    let ghost pre = old(out)@.subrange(0, keep as int);
    let ghost goal = trim_zeros(old(out)@.subrange(keep as int, old(out)@.len() as int));
    while out.len() > keep && out[out.len() - 1] == '0'
        invariant
            keep <= out@.len(),
            out@.subrange(0, keep as int) == pre,
            trim_zeros(out@.subrange(keep as int, out@.len() as int)) == goal,
        decreases out@.len(),
    {
        let ghost s = out@.subrange(keep as int, out@.len() as int);
        out.pop();
        proof {
            assert(out@.subrange(keep as int, out@.len() as int) =~= s.drop_last());
            assert(out@.subrange(0, keep as int) =~= pre);
        }
    }
    proof {
        let s = out@.subrange(keep as int, out@.len() as int);
        if s.len() == 0 {
            assert(trim_zeros(s) == s);
        }
        assert(out@ =~= pre + s);
    }
}

fn write_magnitude(m: u128, out: &mut Vec<char>)
    ensures
        final(out)@ == old(out)@ + magnitude_text(m as nat),
{
    write_digits(m / SCALE, out);
    let frac = m % SCALE;
    if frac != 0 {
        out.push('.');
        let keep = out.len();
        let ghost before = out@;
        write_fixed(frac, 9, out);
        proof {
            assert(out@ == before + fixed_digits(frac as nat, 9));
            assert(before.len() == keep);
            assert(out@.subrange(0, keep as int) =~= before);
            assert(out@.subrange(keep as int, out@.len() as int) =~= fixed_digits(frac as nat, 9));
        }
        trim_trailing_zeros(out, keep);
        proof {
            assert(out@ =~= old(out)@ + magnitude_text(m as nat));
        }
    }
}

} // verus!

verus! {

proof fn lemma_nat_digits(n: nat)
    ensures
        all_digits(nat_digits(n)),
        nat_digits(n).len() >= 1,
        digits_value(nat_digits(n)) == n,
    decreases n,
{
    if n >= 10 {
        lemma_nat_digits(n / 10);
        let s = nat_digits(n);
        assert(s.drop_last() == nat_digits(n / 10));
        assert forall|i: int| 0 <= i < s.len() implies is_digit(#[trigger] s[i]) by {
            if i < s.len() - 1 {
                assert(s[i] == nat_digits(n / 10)[i]);
            }
        }
        assert(n == (n / 10) * 10 + n % 10) by (nonlinear_arith);
        assert(s.last() == digit_char((n % 10) as int));
        assert(s.last() as int - '0' as int == n % 10);
        assert(digits_value(s) == digits_value(s.drop_last()) * 10 + (s.last() as int - '0' as int));
    } else {
        let s = nat_digits(n);
        assert(s.drop_last() =~= Seq::<char>::empty());
        assert(s.last() as int - '0' as int == n);
        assert(digits_value(s) == digits_value(s.drop_last()) * 10 + (s.last() as int - '0' as int));
    }
}

proof fn lemma_fixed_digits(f: nat, w: nat)
    ensures
        all_digits(fixed_digits(f, w)),
        fixed_digits(f, w).len() == w,
        digits_value(fixed_digits(f, w)) == f % (pow10(w) as nat),
    decreases w,
{
    if w > 0 {
        lemma_fixed_digits(f / 10, (w - 1) as nat);
        let s = fixed_digits(f, w);
        assert(s.drop_last() == fixed_digits(f / 10, (w - 1) as nat));
        assert forall|i: int| 0 <= i < s.len() implies is_digit(#[trigger] s[i]) by {
            if i < s.len() - 1 {
                assert(s[i] == fixed_digits(f / 10, (w - 1) as nat)[i]);
            }
        }
        lemma_pow10_pos((w - 1) as nat);
        vstd::arithmetic::div_mod::lemma_mod_breakdown(f as int, 10, pow10((w - 1) as nat));
    } else {
        assert(f % 1 == 0);
    }
}

proof fn lemma_pow10_pos(n: nat)
    ensures
        pow10(n) > 0,
    decreases n,
{
    if n > 0 {
        lemma_pow10_pos((n - 1) as nat);
    }
}

pub open spec fn zeros(k: nat) -> Seq<char> {
    Seq::new(k, |i: int| '0')
}

/// A text is its trimmed form followed by zeros.
proof fn lemma_trim_zeros(s: Seq<char>)
    ensures
        s == trim_zeros(s) + zeros((s.len() - trim_zeros(s).len()) as nat),
        trim_zeros(s).len() <= s.len(),
        trim_zeros(s) == s.subrange(0, trim_zeros(s).len() as int),
        trim_zeros(s).len() > 0 ==> trim_zeros(s).last() != '0',
    decreases s.len(),
{
    if s.len() > 0 && s.last() == '0' {
        let d = s.drop_last();
        lemma_trim_zeros(d);
        let t = trim_zeros(s);
        assert(t == trim_zeros(d));
        assert(d == t + zeros((d.len() - t.len()) as nat));
        assert(s =~= d.push('0'));
        assert(s =~= t + zeros((s.len() - t.len()) as nat));
        assert(t =~= s.subrange(0, t.len() as int));
    } else {
        assert(s =~= s + zeros(0));
        assert(s =~= s.subrange(0, s.len() as int));
    }
}

proof fn lemma_digits_append(a: Seq<char>, b: Seq<char>)
    ensures
        digits_value(a + b) == digits_value(a) * pow10(b.len()) + digits_value(b),
    decreases b.len(),
{
    if b.len() == 0 {
        assert(a + b =~= a);
    } else {
        lemma_digits_append(a, b.drop_last());
        assert((a + b).drop_last() =~= a + b.drop_last());
        assert(digits_value(a) * pow10(b.len()) == digits_value(a) * pow10((b.len() - 1) as nat) * 10)
            by (nonlinear_arith)
            requires
                pow10(b.len()) == 10 * pow10((b.len() - 1) as nat),
        ;
    }
}

proof fn lemma_zeros_value(k: nat)
    ensures
        digits_value(zeros(k)) == 0,
        all_digits(zeros(k)),
    decreases k,
{
    if k > 0 {
        lemma_zeros_value((k - 1) as nat);
        assert(zeros(k).drop_last() =~= zeros((k - 1) as nat));
    }
}

/// The text of a number in range, without its sign, is a number lexeme, and the scanner's
/// reading of that lexeme gives the number back: printing and re-reading a number is
/// lossless.
pub proof fn lemma_number_text_round_trip(m: int)
    requires
        0 <= m <= LIMIT,
    ensures
        number_text(m) == magnitude_text(m as nat),
        valid_lexeme(number_text(m)),
        lexeme_value(number_text(m)) == m,
        m > 0 ==> number_text(-m) == seq!['-'] + number_text(m),
{
    let mm = m as nat;
    let ip = nat_digits(mm / SCALE as nat);
    let f = (mm % SCALE as nat) as nat;
    lemma_nat_digits(mm / SCALE as nat);
    let text = magnitude_text(mm);
    reveal_with_fuel(pow10, 10);
    assert(pow10(9) == 1_000_000_000);
    if f == 0 {
        assert(text == ip);
        lemma_point_pos(text, text.len() as int);
        assert(m == (m / SCALE as int) * SCALE) by (nonlinear_arith)
            requires
                m % SCALE as int == 0,
                0 <= m,
        ;
    } else {
        let fx = fixed_digits(f, 9);
        lemma_fixed_digits(f, 9);
        lemma_trim_zeros(fx);
        let t = trim_zeros(fx);
        let z = zeros((fx.len() - t.len()) as nat);
        lemma_zeros_value((fx.len() - t.len()) as nat);
        lemma_digits_append(t, z);
        if t.len() == 0 {
            assert(fx =~= z);
            assert(false);
        }
        assert(text == ip + seq!['.'] + t);
        let k = ip.len() as int;
        assert forall|j: int| 0 <= j < k implies text[j] != '.' by {
            assert(text[j] == ip[j]);
            assert(is_digit(ip[j]));
        }
        assert(text[k] == '.');
        lemma_point_pos(text, k);
        assert(text.subrange(0, k) =~= ip);
        assert(text.subrange(k + 1, text.len() as int) =~= t);
        assert forall|j: int| 0 <= j < t.len() implies is_digit(#[trigger] t[j]) by {
            assert(t[j] == fx[j]);
        }
        assert(frac_nine(t) =~= fx);
        assert(f % 1_000_000_000 == f);
        assert(m == (m / SCALE as int) * SCALE + m % SCALE as int) by (nonlinear_arith)
            requires
                0 <= m,
        ;
        assert(valid_lexeme(text));
    }
    if m > 0 {
        assert(number_text(-m) == seq!['-'] + magnitude_text((-(-m)) as nat));
    }
}

} // verus!
