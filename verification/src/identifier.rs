//! Short base-36 record identifiers: four to seven lowercase
//! alphanumeric characters, minted fresh for every new record.

use vstd::prelude::*;

use crate::error::StoreError;
use crate::record::texts_view;

verus! {

broadcast use vstd::string::group_string_axioms;

pub const RECORD_IDENTIFIER_MINIMUM_CODE_LENGTH: usize = 4;

pub const RECORD_IDENTIFIER_MAXIMUM_CODE_LENGTH: usize = 7;

pub const RECORD_IDENTIFIER_CODE_RADIX: u64 = 36;

pub const RANDOM_IDENTIFIER_ATTEMPTS_PER_LENGTH: usize = 128;

/// 36 to the power `n`.
pub open spec fn radix_power(n: nat) -> nat
    decreases n,
{
    if n == 0 {
        1
    } else {
        36 * radix_power((n - 1) as nat)
    }
}

/// The character of one base-36 digit: `0`..`9`, then `a`..`z`.
pub open spec fn digit_char(d: nat) -> char {
    if d < 10 {
        (('0' as u32) + d) as char
    } else {
        (('a' as u32) + d - 10) as char
    }
}

/// The value of one base-36 digit character.
pub open spec fn char_digit(c: char) -> nat {
    if '0' as u32 <= c as u32 <= '9' as u32 {
        (c as u32 - '0' as u32) as nat
    } else {
        (c as u32 - 'a' as u32 + 10) as nat
    }
}

/// The base-36 digits of a value, most significant first; zero has none.
pub open spec fn base36_digits(v: nat) -> Seq<char>
    decreases v,
{
    if v == 0 {
        Seq::empty()
    } else {
        base36_digits(v / 36).push(digit_char(v % 36))
    }
}

/// The identifier of a value: its base-36 digits, left-padded with `0` to
/// at least four characters.
pub open spec fn identifier_code(v: nat) -> Seq<char> {
    let digits = base36_digits(v);
    if digits.len() < 4 {
        Seq::new((4 - digits.len()) as nat, |i: int| '0') + digits
    } else {
        digits
    }
}

/// The value a string of base-36 digits spells.
pub open spec fn code_value(s: Seq<char>) -> nat
    decreases s.len(),
{
    if s.len() == 0 {
        0
    } else {
        code_value(s.drop_last()) * 36 + char_digit(s.last())
    }
}

/// The first value whose identifier has `length` characters: zero for the
/// shortest length, otherwise 36^(length - 1).
pub open spec fn code_range_first(length: nat) -> nat {
    if length == 4 {
        0
    } else {
        radix_power((length - 1) as nat)
    }
}

/// How many values have identifiers of `length` characters.
pub open spec fn code_range_count(length: nat) -> nat {
    (radix_power(length) - code_range_first(length)) as nat
}

proof fn lemma_digit_roundtrip(d: nat)
    requires
        d < 36,
    ensures
        char_digit(digit_char(d)) == d,
{
}

proof fn lemma_radix_power_positive(n: nat)
    ensures
        radix_power(n) >= 1,
    decreases n,
{
    if n > 0 {
        lemma_radix_power_positive((n - 1) as nat);
    }
}

/// Reading back the digits of a value gives the value.
proof fn lemma_digits_roundtrip(v: nat)
    ensures
        code_value(base36_digits(v)) == v,
    decreases v,
{
    if v > 0 {
        lemma_digits_roundtrip(v / 36);
        let d = base36_digits(v);
        assert(d.drop_last() =~= base36_digits(v / 36));
        lemma_digit_roundtrip(v % 36);
    }
}

proof fn lemma_leading_zeros(z: nat, s: Seq<char>)
    ensures
        code_value(Seq::new(z, |i: int| '0') + s) == code_value(s),
    decreases z, s.len(),
{
    if s.len() == 0 {
        assert(Seq::new(z, |i: int| '0') + s =~= Seq::new(z, |i: int| '0'));
        if z > 0 {
            assert(Seq::new(z, |i: int| '0').drop_last() =~= Seq::new(
                (z - 1) as nat,
                |i: int| '0',
            ) + Seq::<char>::empty());
            lemma_leading_zeros((z - 1) as nat, Seq::empty());
        }
    } else {
        let t = Seq::new(z, |i: int| '0') + s;
        assert(t.drop_last() =~= Seq::new(z, |i: int| '0') + s.drop_last());
        lemma_leading_zeros(z, s.drop_last());
    }
}

/// Reading back an identifier gives the value it was minted from.
pub proof fn lemma_identifier_roundtrip(v: nat)
    ensures
        code_value(identifier_code(v)) == v,
{
    lemma_digits_roundtrip(v);
    let digits = base36_digits(v);
    if digits.len() < 4 {
        lemma_leading_zeros((4 - digits.len()) as nat, digits);
    }
}

/// Distinct values are minted as distinct identifiers.
pub proof fn lemma_identifier_injective(a: nat, b: nat)
    ensures
        identifier_code(a) == identifier_code(b) ==> a == b,
{
    lemma_identifier_roundtrip(a);
    lemma_identifier_roundtrip(b);
}

/// A value below 36^n has at most n digits; one at or above 36^(n-1) (for
/// n > 0) has at least n.
proof fn lemma_digits_bounds(v: nat, n: nat)
    ensures
        v < radix_power(n) ==> base36_digits(v).len() <= n,
        n > 0 && v >= radix_power((n - 1) as nat) ==> base36_digits(v).len() >= n,
    decreases n,
{
    if n > 0 {
        lemma_digits_bounds(v / 36, (n - 1) as nat);
        if v > 0 {
            assert(base36_digits(v).len() == base36_digits(v / 36).len() + 1);
        }
        if v >= radix_power((n - 1) as nat) && n > 1 {
            assert(v / 36 >= radix_power((n - 2) as nat));
        }
        if n == 1 && v >= 1 {
            assert(base36_digits(v).len() >= 1);
        }
    } else {
        if v < 1 {
            assert(v == 0);
        }
    }
}

/// Every value in the range of a length is minted with exactly that many
/// characters.
pub proof fn lemma_identifier_length(length: nat, v: nat)
    requires
        4 <= length <= 7,
        code_range_first(length) <= v < code_range_first(length) + code_range_count(length),
    ensures
        identifier_code(v).len() == length,
{
    lemma_radix_power_positive(length);
    assert(radix_power((length - 1) as nat) <= radix_power(length)) by {
        lemma_radix_power_positive((length - 1) as nat);
    }
    lemma_digits_bounds(v, length);
    if length > 4 {
        lemma_digits_bounds(v, length);
    } else {
        assert(radix_power(4) == 1679616) by {
            reveal_with_fuel(radix_power, 5);
        }
    }
}

/// 36 to the power `exponent`, for exponents up to 7.
pub fn radix_power_of(exponent: usize) -> (r: u64)
    requires
        exponent <= 7,
    ensures
        r == radix_power(exponent as nat),
{
    let mut value: u64 = 1;
    let mut i: usize = 0;
    proof {
        lemma_radix_power_positive(7);
    }
    while i < exponent
        invariant
            i <= exponent <= 7,
            value == radix_power(i as nat),
            value <= radix_power(7),
        decreases exponent - i,
    {
        proof {
            assert(radix_power(7) == 78364164096) by {
                reveal_with_fuel(radix_power, 8);
            }
            lemma_radix_power_monotone(i as nat + 1, 7);
        }
        value = value * RECORD_IDENTIFIER_CODE_RADIX;
        i = i + 1;
    }
    value
}

proof fn lemma_radix_power_monotone(a: nat, b: nat)
    requires
        a <= b,
    ensures
        radix_power(a) <= radix_power(b),
    decreases b,
{
    if a < b {
        lemma_radix_power_monotone(a, (b - 1) as nat);
        lemma_radix_power_positive((b - 1) as nat);
    }
}

/// The character of a base-36 digit.
pub fn digit_character(digit: u8) -> (r: char)
    requires
        digit < 36,
    ensures
        r == digit_char(digit as nat),
{
    if digit < 10 {
        let code: u32 = 48 + digit as u32;
        proof {
            assert('0' as u32 == 48);
        }
        char_from_code(code)
    } else {
        let code: u32 = 97 + digit as u32 - 10;
        proof {
            assert('a' as u32 == 97);
        }
        char_from_code(code)
    }
}

/// The ASCII character with the given code, as `char::from` makes it from a
/// byte.
#[verifier::external_body]
fn char_from_code(code: u32) -> (r: char)
    requires
        code < 128,
    ensures
        r as u32 == code,
{
    char::from(code as u8)
}

/// Append one character to a text, as `String::push` does.
#[verifier::external_body]
pub fn push_char(s: &mut String, c: char)
    ensures
        final(s)@ == old(s)@.push(c),
{
    s.push(c)
}

/// The text spelled by a list of characters.
pub fn string_of_chars(chars: &Vec<char>) -> (r: String)
    ensures
        r@ == chars@,
{
    let mut out = String::new();
    let mut i: usize = 0;
    while i < chars.len()
        invariant
            i <= chars.len(),
            out@ == chars@.subrange(0, i as int),
        decreases chars.len() - i,
    {
        push_char(&mut out, chars[i]);
        i = i + 1;
        assert(out@ =~= chars@.subrange(0, i as int));
    }
    assert(out@ =~= chars@);
    out
}

/// The identifier text of a value.
pub fn code_from_value(value: u64) -> (r: String)
    ensures
        r@ == identifier_code(value as nat),
{
    // Digits are produced least significant first, then reversed.
    let mut reversed: Vec<char> = Vec::new();
    let mut rest = value;
    while rest > 0
        invariant
            base36_digits(value as nat) == base36_digits(rest as nat) + reversed@.reverse(),
        decreases rest,
    {
        let digit = (rest % RECORD_IDENTIFIER_CODE_RADIX) as u8;
        let c = digit_character(digit);
        proof {
            assert(base36_digits(rest as nat) == base36_digits((rest / 36) as nat).push(c));
            assert(reversed@.push(c).reverse() =~= seq![c] + reversed@.reverse());
            assert(base36_digits((rest / 36) as nat).push(c) + reversed@.reverse()
                =~= base36_digits((rest / 36) as nat) + reversed@.push(c).reverse());
        }
        reversed.push(c);
        rest = rest / RECORD_IDENTIFIER_CODE_RADIX;
    }
    proof {
        assert(base36_digits(0) =~= Seq::<char>::empty());
        assert(base36_digits(value as nat) =~= reversed@.reverse());
    }
    let mut chars: Vec<char> = Vec::new();
    let digit_count = reversed.len();
    if digit_count < RECORD_IDENTIFIER_MINIMUM_CODE_LENGTH {
        let mut p: usize = 0;
        while p < RECORD_IDENTIFIER_MINIMUM_CODE_LENGTH - digit_count
            invariant
                digit_count < 4,
                p <= 4 - digit_count,
                chars@ == Seq::new(p as nat, |i: int| '0'),
            decreases 4 - digit_count - p,
        {
            chars.push('0');
            p = p + 1;
            assert(chars@ =~= Seq::new(p as nat, |i: int| '0'));
        }
    }
    let ghost padding = chars@;
    let mut k: usize = digit_count;
    while k > 0
        invariant
            k <= digit_count == reversed.len(),
            chars@ == padding + reversed@.reverse().subrange(0, (digit_count - k) as int),
        decreases k,
    {
        k = k - 1;
        chars.push(reversed[k]);
        assert(chars@ =~= padding + reversed@.reverse().subrange(0, (digit_count - k) as int));
    }
    assert(reversed@.reverse().subrange(0, digit_count as int) =~= reversed@.reverse());
    proof {
        if digit_count >= 4 {
            assert(padding =~= Seq::<char>::empty());
            assert(chars@ =~= reversed@.reverse());
        }
    }
    string_of_chars(&chars)
}

/// The values whose identifiers have one particular length.
#[derive(Clone, Copy, Debug)]
pub struct RecordIdentifierCodeRange {
    pub first_value: u64,
    pub value_count: u64,
}

impl RecordIdentifierCodeRange {
    /// The range of values whose identifiers have `code_length` characters.
    pub fn new(code_length: usize) -> (r: Self)
        requires
            4 <= code_length <= 7,
        ensures
            r.first_value == code_range_first(code_length as nat),
            r.value_count == code_range_count(code_length as nat),
            r.value_count > 0,
            r.first_value + r.value_count <= radix_power(7),
    {
        proof {
            lemma_radix_power_monotone((code_length - 1) as nat, code_length as nat);
            lemma_radix_power_monotone(code_length as nat, 7);
            assert(radix_power(code_length as nat) == 36 * radix_power((code_length - 1) as nat));
            lemma_radix_power_positive((code_length - 1) as nat);
            assert(radix_power(4) == 1679616) by {
            reveal_with_fuel(radix_power, 5);
        }
        }
        let first_value = if code_length == RECORD_IDENTIFIER_MINIMUM_CODE_LENGTH {
            0
        } else {
            radix_power_of(code_length - 1)
        };
        let next_length_first_value = radix_power_of(code_length);
        RecordIdentifierCodeRange {
            first_value,
            value_count: next_length_first_value - first_value,
        }
    }

    /// The identifier a random draw selects: the draw reduced into the range.
    pub fn identifier_from_draw(self, draw: u64) -> (r: String)
        requires
            self.value_count > 0,
            self.first_value + self.value_count <= u64::MAX,
        ensures
            r@ == identifier_code((self.first_value + draw % self.value_count) as nat),
    {
        let offset = draw % self.value_count;
        code_from_value(self.first_value + offset)
    }

    /// A random identifier of the range's length.
    pub fn random_identifier(self) -> (r: Result<String, StoreError>)
        requires
            self.value_count > 0,
            self.first_value + self.value_count <= u64::MAX,
        ensures
            r is Ok ==> exists|v: nat|
                self.first_value <= v < self.first_value + self.value_count && r->Ok_0@
                    == identifier_code(v),
            r is Err ==> r->Err_0 is IdentifierMint,
    {
        match random_u64() {
            Ok(draw) => {
                let identifier = self.identifier_from_draw(draw);
                assert(self.first_value <= self.first_value + draw % self.value_count);
                Ok(identifier)
            },
            Err(message) => Err(StoreError::IdentifierMint(message)),
        }
    }

    /// The identifier of the smallest value in the range that is not yet
    /// used, if any.
    pub fn first_available_identifier(self, used_identifiers: &Vec<String>) -> (r: Option<String>)
        requires
            self.first_value + self.value_count <= u64::MAX,
        ensures
            match r {
                Some(identifier) => exists|v: nat|
                    self.first_value <= v < self.first_value + self.value_count
                        && identifier@ == identifier_code(v) && !texts_view(
                        used_identifiers@,
                    ).contains(identifier_code(v)) && forall|w: nat|
                        self.first_value <= w < v ==> texts_view(used_identifiers@).contains(
                            #[trigger] identifier_code(w),
                        ),
                None => forall|w: nat|
                    self.first_value <= w < self.first_value + self.value_count ==> texts_view(
                        used_identifiers@,
                    ).contains(#[trigger] identifier_code(w)),
            },
    {
        let last_value = self.first_value + self.value_count;
        let mut value = self.first_value;
        while value < last_value
            invariant
                self.first_value <= value <= last_value,
                last_value == self.first_value + self.value_count,
                forall|w: nat|
                    self.first_value <= w < value ==> texts_view(used_identifiers@).contains(
                        #[trigger] identifier_code(w),
                    ),
            decreases last_value - value,
        {
            let identifier = code_from_value(value);
            if !text_listed(used_identifiers, &identifier) {
                return Some(identifier);
            }
            value = value + 1;
        }
        None
    }
}

/// Whether a text is among the listed ones.
pub fn text_listed(listed: &Vec<String>, text: &String) -> (r: bool)
    ensures
        r == texts_view(listed@).contains(text@),
{
    let mut i: usize = 0;
    while i < listed.len()
        invariant
            i <= listed.len(),
            forall|k: int| 0 <= k < i ==> (#[trigger] listed@[k])@ != text@,
        decreases listed.len() - i,
    {
        if listed[i] == *text {
            assert(texts_view(listed@)[i as int] == text@);
            return true;
        }
        i = i + 1;
    }
    assert(!texts_view(listed@).contains(text@)) by {
        if texts_view(listed@).contains(text@) {
            let k = choose|k: int| 0 <= k < listed@.len() && texts_view(listed@)[k] == text@;
            assert(listed@[k]@ == text@);
        }
    }
    false
}

/// Eight random bytes from the operating system's entropy source, read as
/// a big-endian number, through `getrandom::fill`. Nothing is claimed of
/// the value; a failure of the source is reported as its message.
#[verifier::external_body]
fn random_u64() -> (r: Result<u64, String>) {
    let mut bytes = [0_u8; 8];
    match getrandom::fill(&mut bytes) {
        Ok(()) => Ok(u64::from_be_bytes(bytes)),
        Err(error) => Err(error.to_string()),
    }
}

/// Where a mint stands: the code length it draws for and how many draws of
/// that length have already landed on used identifiers.
#[derive(Clone, Copy, Debug, PartialEq, Eq, Structural)]
pub struct MintProgress {
    pub code_length: usize,
    pub attempt: usize,
}

/// What one draw does to a mint: it ends with a fresh identifier, asks for
/// another draw, or finds every identifier of four to seven characters in
/// use.
#[derive(Debug)]
pub enum MintStep {
    Minted(String),
    Draw(MintProgress),
    Exhausted,
}

pub enum MintStepView {
    Minted(Seq<char>),
    Draw(MintProgress),
    Exhausted,
}

impl View for MintStep {
    type V = MintStepView;

    open spec fn view(&self) -> MintStepView {
        match self {
            MintStep::Minted(identifier) => MintStepView::Minted(identifier@),
            MintStep::Draw(progress) => MintStepView::Draw(*progress),
            MintStep::Exhausted => MintStepView::Exhausted,
        }
    }
}

/// The identifier a draw selects among those of `length` characters.
pub open spec fn drawn_code(length: nat, draw: u64) -> Seq<char> {
    identifier_code((code_range_first(length) + (draw as nat) % code_range_count(length)) as nat)
}

/// `v` is the smallest value of `length` characters whose identifier is
/// not in use.
pub open spec fn smallest_free(used: Seq<Seq<char>>, length: nat, v: nat) -> bool {
    &&& code_range_first(length) <= v < code_range_first(length) + code_range_count(length)
    &&& !used.contains(identifier_code(v))
    &&& forall|w: nat| code_range_first(length) <= w < v ==> used.contains(#[trigger] identifier_code(w))
}

/// The smallest identifier of `length` characters not in use (meaningful
/// when that length is not full).
pub open spec fn smallest_free_code(used: Seq<Seq<char>>, length: nat) -> Seq<char> {
    identifier_code(choose|v: nat| smallest_free(used, length, v))
}

/// Every identifier of four to seven characters is in use.
pub open spec fn mint_exhausted(used: Seq<Seq<char>>) -> bool {
    forall|length: nat| 4 <= length <= 7 ==> #[trigger] code_length_full(used, length)
}

/// One step of the mint on one draw. A drawn identifier not in use ends
/// the mint. A used one counts an attempt; after the last attempt of a
/// length the smallest free identifier of that length ends the mint, or,
/// with the length full, the mint moves on to the next length, or, past
/// seven characters, is exhausted.
pub open spec fn mint_transition(used: Seq<Seq<char>>, progress: MintProgress, draw: u64) -> MintStepView {
    let length = progress.code_length as nat;
    let drawn = drawn_code(length, draw);
    if !used.contains(drawn) {
        MintStepView::Minted(drawn)
    } else if progress.attempt + 1 < 128 {
        MintStepView::Draw(MintProgress { code_length: progress.code_length, attempt: (progress.attempt + 1) as usize })
    } else if !code_length_full(used, length) {
        MintStepView::Minted(smallest_free_code(used, length))
    } else if progress.code_length < 7 {
        MintStepView::Draw(MintProgress { code_length: (progress.code_length + 1) as usize, attempt: 0 })
    } else {
        MintStepView::Exhausted
    }
}

/// Each length from four to seven has identifiers.
pub proof fn lemma_code_range_bounds(length: nat)
    requires
        4 <= length <= 7,
    ensures
        code_range_count(length) > 0,
{
    lemma_radix_power_positive((length - 1) as nat);
    assert(radix_power(length) == 36 * radix_power((length - 1) as nat));
    assert(radix_power(4) == 1679616) by {
        reveal_with_fuel(radix_power, 5);
    }
}

/// A length with a free identifier has a smallest one.
pub proof fn lemma_smallest_free_exists(used: Seq<Seq<char>>, length: nat, w: nat)
    requires
        code_range_first(length) <= w < code_range_first(length) + code_range_count(length),
        !used.contains(identifier_code(w)),
    ensures
        exists|v: nat| smallest_free(used, length, v),
    decreases w - code_range_first(length),
{
    if forall|u: nat| code_range_first(length) <= u < w ==> used.contains(#[trigger] identifier_code(u)) {
        assert(smallest_free(used, length, w));
    } else {
        let u = choose|u: nat| code_range_first(length) <= u < w && !used.contains(#[trigger] identifier_code(u));
        lemma_smallest_free_exists(used, length, u);
    }
}

/// The smallest free value of a length is unique.
pub proof fn lemma_smallest_free_unique(used: Seq<Seq<char>>, length: nat, a: nat, b: nat)
    requires
        smallest_free(used, length, a),
        smallest_free(used, length, b),
    ensures
        a == b,
{
    if a < b {
        assert(used.contains(identifier_code(a)));
    } else if b < a {
        assert(used.contains(identifier_code(b)));
    }
}

/// The set of identifiers already in use, from which fresh ones are
/// minted.
#[derive(Debug)]
pub struct RecordIdentifierMint {
    pub used_identifiers: Vec<String>,
}

/// The identifier is a well-formed record identifier: the code of some value
/// whose identifier has between four and seven characters.
pub open spec fn well_formed_identifier(identifier: Seq<char>) -> bool {
    exists|v: nat| v < radix_power(7) && identifier == identifier_code(v)
}

/// Every identifier of `length` characters is in use.
pub open spec fn code_length_full(used: Seq<Seq<char>>, length: nat) -> bool {
    forall|w: nat|
        code_range_first(length) <= w < code_range_first(length) + code_range_count(length) ==> used.contains(
            #[trigger] identifier_code(w),
        )
}

/// The identifier has `length` characters: it is the code of a value in
/// that length's range.
pub open spec fn identifier_of_length(identifier: Seq<char>, length: nat) -> bool {
    exists|v: nat|
        code_range_first(length) <= v < code_range_first(length) + code_range_count(length) && identifier
            == identifier_code(v)
}

/// A well-formed identifier not in use, of the shortest length that still
/// has one free.
pub open spec fn fresh_of_shortest_length(used: Seq<Seq<char>>, identifier: Seq<char>) -> bool {
    &&& !used.contains(identifier)
    &&& well_formed_identifier(identifier)
    &&& exists|length: nat|
        4 <= length <= 7 && identifier_of_length(identifier, length) && forall|shorter: nat|
            4 <= shorter < length ==> #[trigger] code_length_full(used, shorter)
}

impl RecordIdentifierMint {
    pub fn new(used_identifiers: Vec<String>) -> (r: Self)
        ensures
            r.used_identifiers@ == used_identifiers@,
    {
        RecordIdentifierMint { used_identifiers }
    }

    /// One step of the mint, fed one draw (see `mint_transition`).
    pub fn mint_step(&self, progress: MintProgress, draw: u64) -> (r: MintStep)
        requires
            4 <= progress.code_length <= 7,
            progress.attempt < 128,
        ensures
            r@ == mint_transition(texts_view(self.used_identifiers@), progress, draw),
    {
        let ghost used = texts_view(self.used_identifiers@);
        let ghost length = progress.code_length as nat;
        let range = RecordIdentifierCodeRange::new(progress.code_length);
        proof {
            assert(radix_power(7) == 78364164096) by {
                reveal_with_fuel(radix_power, 8);
            }
        }
        let identifier = range.identifier_from_draw(draw);
        if !text_listed(&self.used_identifiers, &identifier) {
            return MintStep::Minted(identifier);
        }
        if progress.attempt + 1 < RANDOM_IDENTIFIER_ATTEMPTS_PER_LENGTH {
            return MintStep::Draw(MintProgress { code_length: progress.code_length, attempt: progress.attempt + 1 });
        }
        match range.first_available_identifier(&self.used_identifiers) {
            Some(free) => {
                proof {
                    let v = choose|v: nat|
                        range.first_value <= v < range.first_value + range.value_count && free@ == identifier_code(v)
                            && !used.contains(identifier_code(v)) && forall|w: nat|
                            range.first_value <= w < v ==> used.contains(#[trigger] identifier_code(w));
                    assert(smallest_free(used, length, v));
                    assert(!code_length_full(used, length));
                    let c = choose|c: nat| smallest_free(used, length, c);
                    lemma_smallest_free_unique(used, length, v, c);
                }
                MintStep::Minted(free)
            },
            None => {
                proof {
                    assert(code_length_full(used, length));
                }
                if progress.code_length < RECORD_IDENTIFIER_MAXIMUM_CODE_LENGTH {
                    MintStep::Draw(MintProgress { code_length: progress.code_length + 1, attempt: 0 })
                } else {
                    MintStep::Exhausted
                }
            },
        }
    }

    /// A fresh identifier of `code_length` characters: up to 128 random
    /// draws, then the smallest unused value of that length. `Ok(None)` when
    /// every identifier of that length is taken; an error when the random
    /// source fails.
    pub fn identifier_for_code_length(&self, code_length: usize) -> (r: Result<
        Option<String>,
        StoreError,
    >)
        requires
            4 <= code_length <= 7,
        ensures
            match r {
                Ok(Some(identifier)) => !texts_view(self.used_identifiers@).contains(identifier@)
                    && identifier_of_length(identifier@, code_length as nat),
                Ok(None) => code_length_full(texts_view(self.used_identifiers@), code_length as nat),
                Err(e) => e is IdentifierMint,
            },
    {
        let ghost used = texts_view(self.used_identifiers@);
        let mut progress = MintProgress { code_length, attempt: 0 };
        loop
            invariant
                4 <= code_length <= 7,
                progress.code_length == code_length,
                progress.attempt < 128,
                used == texts_view(self.used_identifiers@),
            decreases 128 - progress.attempt,
        {
            let draw = match random_u64() {
                Ok(draw) => draw,
                Err(message) => {
                    return Err(StoreError::IdentifierMint(message));
                },
            };
            match self.mint_step(progress, draw) {
                MintStep::Minted(identifier) => {
                    proof {
                        let length = code_length as nat;
                        lemma_code_range_bounds(length);
                        if !used.contains(drawn_code(length, draw)) {
                            let v = (code_range_first(length) + (draw as nat) % code_range_count(length)) as nat;
                            assert(identifier@ == identifier_code(v));
                            assert(identifier_of_length(identifier@, length));
                        } else {
                            let c = choose|c: nat| smallest_free(used, length, c);
                            assert(!code_length_full(used, length));
                            let w = choose|w: nat|
                                code_range_first(length) <= w < code_range_first(length) + code_range_count(length)
                                    && !used.contains(#[trigger] identifier_code(w));
                            lemma_smallest_free_exists(used, length, w);
                            assert(smallest_free(used, length, c));
                            assert(identifier_of_length(identifier@, length));
                        }
                    }
                    return Ok(Some(identifier));
                },
                MintStep::Draw(next) => {
                    if next.code_length != code_length {
                        return Ok(None);
                    }
                    progress = next;
                },
                MintStep::Exhausted => {
                    return Ok(None);
                },
            }
        }
    }

    /// A fresh identifier, of the shortest length that still has one free.
    #[verifier::spinoff_prover]
    pub fn next_identifier(&self) -> (r: Result<String, StoreError>)
        ensures
            match r {
                Ok(identifier) => fresh_of_shortest_length(texts_view(self.used_identifiers@), identifier@),
                Err(e) => e is IdentifierMint,
            },
            mint_exhausted(texts_view(self.used_identifiers@)) ==> r is Err,
    {
        let mut code_length: usize = RECORD_IDENTIFIER_MINIMUM_CODE_LENGTH;
        while code_length <= RECORD_IDENTIFIER_MAXIMUM_CODE_LENGTH
            invariant
                4 <= code_length <= 8,
                forall|shorter: nat|
                    4 <= shorter < code_length ==> #[trigger] code_length_full(
                        texts_view(self.used_identifiers@),
                        shorter,
                    ),
            decreases 8 - code_length,
        {
            match self.identifier_for_code_length(code_length) {
                Ok(Some(identifier)) => {
                    proof {
                        let v = choose|v: nat|
                            code_range_first(code_length as nat) <= v < code_range_first(
                                code_length as nat,
                            ) + code_range_count(code_length as nat) && identifier@
                                == identifier_code(v);
                        lemma_radix_power_monotone(code_length as nat, 7);
                        assert(v < radix_power(7));
                        lemma_radix_power_monotone((code_length - 1) as nat, code_length as nat);
                        assert(!mint_exhausted(texts_view(self.used_identifiers@))) by {
                            if mint_exhausted(texts_view(self.used_identifiers@)) {
                                assert(code_length_full(texts_view(self.used_identifiers@), code_length as nat));
                                assert(texts_view(self.used_identifiers@).contains(identifier_code(v)));
                            }
                        }
                    }
                    assert(identifier_of_length(identifier@, code_length as nat));
                    assert(fresh_of_shortest_length(texts_view(self.used_identifiers@), identifier@));
                    return Ok(identifier);
                },
                Ok(None) => {
                    assert(code_length_full(texts_view(self.used_identifiers@), code_length as nat));
                },
                Err(error) => {
                    return Err(error);
                },
            }
            code_length = code_length + 1;
        }
        Err(
            StoreError::IdentifierMint(
                "no available record identifier code between 4 and 7 characters".to_string(),
            ),
        )
    }
}

/// Where a run of mint steps stands after `k` draws: within four to seven
/// characters, `k` counting every attempt so far, every shorter length full.
proof fn lemma_mint_progress(used: Seq<Seq<char>>, progress: Seq<MintProgress>, draws: Seq<u64>, k: int)
    requires
        progress.len() == draws.len(),
        0 <= k < progress.len(),
        progress[0] == (MintProgress { code_length: 4, attempt: 0 }),
        forall|i: int|
            0 <= i < draws.len() - 1 ==> #[trigger] mint_transition(used, progress[i], draws[i])
                == MintStepView::Draw(progress[i + 1]),
    ensures
        4 <= progress[k].code_length <= 7,
        progress[k].attempt < 128,
        k == (progress[k].code_length - 4) * 128 + progress[k].attempt,
        forall|shorter: nat| 4 <= shorter < progress[k].code_length ==> #[trigger] code_length_full(used, shorter),
    decreases k,
{
    if k > 0 {
        lemma_mint_progress(used, progress, draws, k - 1);
        assert(mint_transition(used, progress[k - 1], draws[k - 1]) == MintStepView::Draw(progress[k]));
    }
}

/// A mint started at four characters and fed one draw after another:
/// every draw that lands on a used identifier counts an attempt or, after
/// the last attempt at a full length, moves on to the next length. So the
/// run ends within 512 draws; it ends exhausted only when every identifier
/// of four to seven characters is in use; and what it mints is free and of
/// the shortest length that still has a free identifier.
pub proof fn law_mint_run(used: Seq<Seq<char>>, progress: Seq<MintProgress>, draws: Seq<u64>, last: MintStepView)
    requires
        draws.len() >= 1,
        progress.len() == draws.len(),
        progress[0] == (MintProgress { code_length: 4, attempt: 0 }),
        forall|i: int|
            0 <= i < draws.len() - 1 ==> #[trigger] mint_transition(used, progress[i], draws[i])
                == MintStepView::Draw(progress[i + 1]),
        mint_transition(used, progress[draws.len() - 1], draws[draws.len() - 1]) == last,
    ensures
        draws.len() <= 512,
        last is Exhausted ==> mint_exhausted(used),
        last is Draw ==> draws.len() < 512,
        last matches MintStepView::Minted(identifier) ==> fresh_of_shortest_length(used, identifier),
{
    let n = draws.len() as int;
    lemma_mint_progress(used, progress, draws, n - 1);
    let p = progress[n - 1];
    let length = p.code_length as nat;
    lemma_code_range_bounds(length);
    lemma_radix_power_monotone(length, 7);
    lemma_radix_power_monotone((length - 1) as nat, length);
    let drawn = drawn_code(length, draws[n - 1]);
    if !used.contains(drawn) {
        let v = (code_range_first(length) + (draws[n - 1] as nat) % code_range_count(length)) as nat;
        assert(drawn == identifier_code(v));
        assert(identifier_of_length(drawn, length));
        assert(v < radix_power(7));
        assert(fresh_of_shortest_length(used, drawn));
    } else if p.attempt + 1 >= 128 && !code_length_full(used, length) {
        let w = choose|w: nat|
            code_range_first(length) <= w < code_range_first(length) + code_range_count(length)
                && !used.contains(#[trigger] identifier_code(w));
        lemma_smallest_free_exists(used, length, w);
        let c = choose|c: nat| smallest_free(used, length, c);
        assert(smallest_free(used, length, c));
        assert(identifier_of_length(identifier_code(c), length));
        assert(c < radix_power(7));
        assert(fresh_of_shortest_length(used, identifier_code(c)));
    } else if p.attempt + 1 >= 128 && p.code_length == 7 {
        assert forall|l: nat| 4 <= l <= 7 implies #[trigger] code_length_full(used, l) by {}
    }
}

} // verus!
