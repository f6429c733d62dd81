//! Random passwords from chosen character classes, and a rough estimate of
//! how strong a password is.

use crate::text::push_char;
use rand::Rng;
use vstd::prelude::*;
use vstd::utf8::encode_utf8;

verus! {

/// What a generated password is made of.
#[derive(Debug, Clone, Copy)]
pub struct PasswordGeneratorOptions {
    /// Number of characters.
    pub length: usize,
    pub include_uppercase: bool,
    pub include_lowercase: bool,
    pub include_numbers: bool,
    pub include_symbols: bool,
    /// Leave out the characters that are easily mistaken for one another.
    pub avoid_ambiguous: bool,
}

impl Default for PasswordGeneratorOptions {
    /// Sixteen characters from all classes, without the ambiguous ones.
    fn default() -> (options: Self)
        ensures
            options.length == 16,
            options.include_uppercase,
            options.include_lowercase,
            options.include_numbers,
            options.include_symbols,
            options.avoid_ambiguous,
    {
        Self {
            length: 16,
            include_uppercase: true,
            include_lowercase: true,
            include_numbers: true,
            include_symbols: true,
            avoid_ambiguous: true,
        }
    }
}

/// The uppercase letters a password may hold.
pub const UPPERCASE: &'static str = "ABCDEFGHIJKLMNOPQRSTUVWXYZ";

/// The lowercase letters a password may hold.
pub const LOWERCASE: &'static str = "abcdefghijklmnopqrstuvwxyz";

/// The digits a password may hold.
pub const NUMBERS: &'static str = "0123456789";

/// The symbols a password may hold.
pub const SYMBOLS: &'static str = "!@#$%^&*()_+-=[]{}|;:,.<>?";

/// The characters that are easily mistaken for one another: `il1Lo0O`.
pub open spec fn ambiguous(c: char) -> bool {
    c == 'i' || c == 'l' || c == '1' || c == 'L' || c == 'o' || c == '0' || c == 'O'
}

/// `s` without its ambiguous characters, the others in their order.
pub open spec fn without_ambiguous(s: Seq<char>) -> Seq<char>
    decreases s.len(),
{
    if s.len() == 0 {
        Seq::empty()
    } else if ambiguous(s.last()) {
        without_ambiguous(s.drop_last())
    } else {
        without_ambiguous(s.drop_last()).push(s.last())
    }
}

/// What one class adds to the character set.
pub open spec fn class_chars(class: Seq<char>, selected: bool, avoid_ambiguous: bool) -> Seq<char> {
    if !selected {
        Seq::empty()
    } else if avoid_ambiguous {
        without_ambiguous(class)
    } else {
        class
    }
}

/// The characters a password is drawn from: the selected classes one after
/// another, without the ambiguous characters where that is asked for.
pub open spec fn charset(options: PasswordGeneratorOptions) -> Seq<char> {
    class_chars(UPPERCASE@, options.include_uppercase, options.avoid_ambiguous) + class_chars(
        LOWERCASE@,
        options.include_lowercase,
        options.avoid_ambiguous,
    ) + class_chars(NUMBERS@, options.include_numbers, options.avoid_ambiguous) + class_chars(
        SYMBOLS@,
        options.include_symbols,
        options.avoid_ambiguous,
    )
}

/// At least one class is selected.
pub open spec fn any_class(options: PasswordGeneratorOptions) -> bool {
    options.include_uppercase || options.include_lowercase || options.include_numbers
        || options.include_symbols
}

/// `c` belongs to a selected class and is not ambiguous where ambiguous
/// characters are to be avoided.
pub open spec fn allowed(options: PasswordGeneratorOptions, c: char) -> bool {
    &&& {
        ||| options.include_uppercase && UPPERCASE@.contains(c)
        ||| options.include_lowercase && LOWERCASE@.contains(c)
        ||| options.include_numbers && NUMBERS@.contains(c)
        ||| options.include_symbols && SYMBOLS@.contains(c)
    }
    &&& options.avoid_ambiguous ==> !ambiguous(c)
}

/// Whether a character is one of the ambiguous ones.
pub fn is_ambiguous(c: char) -> (r: bool)
    ensures
        r == ambiguous(c),
{
    c == 'i' || c == 'l' || c == '1' || c == 'L' || c == 'o' || c == '0' || c == 'O'
}

/// Taking one more character of `s` adds it to the kept ones unless it is
/// ambiguous.
proof fn lemma_without_ambiguous_step(s: Seq<char>, i: int)
    requires
        0 <= i < s.len(),
    ensures
        without_ambiguous(s.take(i + 1)) == if ambiguous(s[i]) {
            without_ambiguous(s.take(i))
        } else {
            without_ambiguous(s.take(i)).push(s[i])
        },
{
    assert(s.take(i + 1).drop_last() == s.take(i));
    assert(s.take(i + 1).last() == s[i]);
}

/// What is kept of `s` are exactly its characters that are not ambiguous.
pub proof fn lemma_without_ambiguous_members(s: Seq<char>, c: char)
    ensures
        without_ambiguous(s).contains(c) <==> s.contains(c) && !ambiguous(c),
    decreases s.len(),
{
    if s.len() > 0 {
        let rest = s.drop_last();
        lemma_without_ambiguous_members(rest, c);
        let kept = without_ambiguous(rest);
        if s.contains(c) && !ambiguous(c) {
            let i = choose|i: int| 0 <= i < s.len() && s[i] == c;
            if i == s.len() - 1 {
                assert(kept.push(c).last() == c);
            } else {
                assert(rest[i] == c);
                let j = choose|j: int| 0 <= j < kept.len() && kept[j] == c;
                if !ambiguous(s.last()) {
                    assert(kept.push(s.last())[j] == c);
                }
            }
        }
        if without_ambiguous(s).contains(c) {
            let j = choose|j: int| 0 <= j < without_ambiguous(s).len() && without_ambiguous(s)[j] == c;
            if ambiguous(s.last()) || j < kept.len() {
                assert(kept[j] == c);
                let i = choose|i: int| 0 <= i < rest.len() && rest[i] == c;
                assert(s[i] == c);
            } else {
                assert(s[s.len() - 1] == c);
            }
        }
    }
}

/// The character set holds exactly the allowed characters.
pub proof fn lemma_charset_members(options: PasswordGeneratorOptions, c: char)
    ensures
        charset(options).contains(c) <==> allowed(options, c),
{
    let a = options.avoid_ambiguous;
    let u = class_chars(UPPERCASE@, options.include_uppercase, a);
    let l = class_chars(LOWERCASE@, options.include_lowercase, a);
    let n = class_chars(NUMBERS@, options.include_numbers, a);
    let s = class_chars(SYMBOLS@, options.include_symbols, a);
    lemma_without_ambiguous_members(UPPERCASE@, c);
    lemma_without_ambiguous_members(LOWERCASE@, c);
    lemma_without_ambiguous_members(NUMBERS@, c);
    lemma_without_ambiguous_members(SYMBOLS@, c);
    lemma_concat_members(u, l, c);
    lemma_concat_members(u + l, n, c);
    lemma_concat_members(u + l + n, s, c);
}

/// A concatenation holds what either part holds.
proof fn lemma_concat_members(a: Seq<char>, b: Seq<char>, c: char)
    ensures
        (a + b).contains(c) <==> a.contains(c) || b.contains(c),
{
    if a.contains(c) {
        let i = choose|i: int| 0 <= i < a.len() && a[i] == c;
        assert((a + b)[i] == c);
    }
    if b.contains(c) {
        let i = choose|i: int| 0 <= i < b.len() && b[i] == c;
        assert((a + b)[a.len() + i] == c);
    }
    if (a + b).contains(c) {
        let i = choose|i: int| 0 <= i < (a + b).len() && (a + b)[i] == c;
        if i < a.len() {
            assert(a[i] == c);
        } else {
            assert(b[i - a.len()] == c);
        }
    }
}

/// With a class selected the character set is not empty: every class has a
/// character that is not ambiguous.
pub proof fn lemma_charset_not_empty(options: PasswordGeneratorOptions)
    requires
        any_class(options),
    ensures
        charset(options).len() > 0,
{
    reveal_strlit("ABCDEFGHIJKLMNOPQRSTUVWXYZ");
    reveal_strlit("abcdefghijklmnopqrstuvwxyz");
    reveal_strlit("0123456789");
    reveal_strlit("!@#$%^&*()_+-=[]{}|;:,.<>?");
    let c = if options.include_uppercase {
        'A'
    } else if options.include_lowercase {
        'a'
    } else if options.include_numbers {
        '2'
    } else {
        '!'
    };
    assert(UPPERCASE@[0] == 'A');
    assert(LOWERCASE@[0] == 'a');
    assert(NUMBERS@[2] == '2');
    assert(SYMBOLS@[0] == '!');
    assert(allowed(options, c));
    lemma_charset_members(options, c);
}

/// Appends to `out` what the class adds to the character set.
fn append_class(out: &mut Vec<char>, class: &str, avoid_ambiguous: bool)
    ensures
        final(out)@ == old(out)@ + class_chars(class@, true, avoid_ambiguous),
{
    for c in it: class.chars()
        invariant
            it.seq() == class@,
            out@ == old(out)@ + class_chars(class@.take(it.index() as int), true, avoid_ambiguous),
    {
        proof {
            lemma_without_ambiguous_step(class@, it.index() as int);
            assert(class@.take(it.index() + 1) == class@.take(it.index() as int).push(c));
        }
        if !(avoid_ambiguous && is_ambiguous(c)) {
            out.push(c);
        }
    }
    proof {
        assert(class@.take(class@.len() as int) == class@);
    }
}

/// The character set for the given options, as `charset` defines it.
pub fn build_charset(options: &PasswordGeneratorOptions) -> (chars: Vec<char>)
    ensures
        chars@ == charset(*options),
{
    let mut chars: Vec<char> = Vec::new();
    if options.include_uppercase {
        append_class(&mut chars, UPPERCASE, options.avoid_ambiguous);
    }
    if options.include_lowercase {
        append_class(&mut chars, LOWERCASE, options.avoid_ambiguous);
    }
    if options.include_numbers {
        append_class(&mut chars, NUMBERS, options.avoid_ambiguous);
    }
    if options.include_symbols {
        append_class(&mut chars, SYMBOLS, options.avoid_ambiguous);
    }
    chars
}

/// `Rng::gen_range` on the thread's generator, over `0..bound`: some index
/// below the bound. It panics on an empty range.
#[verifier::external_body]
fn random_index(bound: usize) -> (index: usize)
    requires
        bound > 0,
    ensures
        index < bound,
{
    rand::thread_rng().gen_range(0..bound)
}

/// The password that a sequence of picks from a character set spells.
pub open spec fn spelled(chars: Seq<char>, picks: Seq<usize>) -> Seq<char> {
    Seq::new(picks.len(), |i: int| chars[picks[i] as int])
}

/// Spells the password that `picks` selects from `chars`.
pub fn compose_password(chars: &Vec<char>, picks: &Vec<usize>) -> (password: String)
    requires
        forall|i: int| 0 <= i < picks@.len() ==> picks@[i] < chars@.len(),
    ensures
        password@ == spelled(chars@, picks@),
{
    let mut password = String::new();
    let mut i: usize = 0;
    while i < picks.len()
        invariant
            i <= picks@.len(),
            forall|k: int| 0 <= k < picks@.len() ==> picks@[k] < chars@.len(),
            password@ == spelled(chars@, picks@.take(i as int)),
        decreases picks@.len() - i,
    {
        push_char(&mut password, chars[picks[i]]);
        proof {
            assert(spelled(chars@, picks@.take(i + 1)) == spelled(
                chars@,
                picks@.take(i as int),
            ).push(chars@[picks@[i as int] as int]));
        }
        i = i + 1;
    }
    proof {
        assert(picks@.take(picks@.len() as int) == picks@);
    }
    password
}

/// What is said of a length of zero.
pub open spec fn length_error() -> Seq<char> {
    "La longueur doit être > 0"@
}

/// What is said of a selection without any class.
pub open spec fn class_error() -> Seq<char> {
    "Au moins un type de caractère doit être sélectionné"@
}

/// What `generate_password` returns for given options, whatever the random
/// source gives.
pub open spec fn generate_password_post(
    options: PasswordGeneratorOptions,
    outcome: Result<String, String>,
) -> bool {
    match outcome {
        Ok(password) => {
            &&& options.length > 0
            &&& any_class(options)
            &&& password@.len() == options.length
            &&& forall|i: int|
                0 <= i < password@.len() ==> charset(options).contains(#[trigger] password@[i])
        },
        Err(e) => if options.length == 0 {
            e@ == length_error()
        } else {
            !any_class(options) && e@ == class_error()
        },
    }
}

/// A random password of `options.length` characters, each drawn from the
/// character set of the options.
///
/// A length of zero and a selection without any class are refused.
pub fn generate_password(options: &PasswordGeneratorOptions) -> (r: Result<String, String>)
    ensures
        generate_password_post(*options, r),
{
    if options.length == 0 {
        return Err(String::from_str("La longueur doit être > 0"));
    }
    if !(options.include_uppercase || options.include_lowercase || options.include_numbers
        || options.include_symbols) {
        return Err(String::from_str("Au moins un type de caractère doit être sélectionné"));
    }
    let chars = build_charset(options);
    proof {
        lemma_charset_not_empty(*options);
    }
    let mut picks: Vec<usize> = Vec::new();
    let mut i: usize = 0;
    while i < options.length
        invariant
            i <= options.length,
            chars@.len() > 0,
            picks@.len() == i,
            forall|k: int| 0 <= k < picks@.len() ==> picks@[k] < chars@.len(),
        decreases options.length - i,
    {
        let pick = random_index(chars.len());
        picks.push(pick);
        i = i + 1;
    }
    let password = compose_password(&chars, &picks);
    proof {
        assert forall|k: int| 0 <= k < password@.len() implies charset(*options).contains(
            #[trigger] password@[k],
        ) by {
            assert(chars@[picks@[k] as int] == password@[k]);
        }
    }
    Ok(password)
}

/// Every character of a generated password belongs to a selected class, and
/// none is ambiguous where ambiguous characters are to be avoided.
pub proof fn lemma_generated_password_allowed(
    options: PasswordGeneratorOptions,
    password: String,
    i: int,
)
    requires
        generate_password_post(options, Ok(password)),
        0 <= i < password@.len(),
    ensures
        password@.len() == options.length,
        allowed(options, password@[i]),
{
    lemma_charset_members(options, password@[i]);
}


/// Whether a character has the Unicode property `Uppercase`.
pub uninterp spec fn unicode_uppercase(c: char) -> bool;

/// Whether a character has the Unicode property `Lowercase`.
pub uninterp spec fn unicode_lowercase(c: char) -> bool;

/// Whether a character is in one of the Unicode number categories.
pub uninterp spec fn unicode_numeric(c: char) -> bool;

/// Whether a character is alphabetic or numeric in Unicode's sense.
pub uninterp spec fn unicode_alphanumeric(c: char) -> bool;

/// `char::is_uppercase`: whether the character has the property
/// `Uppercase`.
pub assume_specification[ char::is_uppercase ](c: char) -> (r: bool)
    ensures
        r == unicode_uppercase(c),
;

/// `char::is_lowercase`: whether the character has the property
/// `Lowercase`.
pub assume_specification[ char::is_lowercase ](c: char) -> (r: bool)
    ensures
        r == unicode_lowercase(c),
;

/// `char::is_numeric`: whether the character is in one of the general
/// categories for numbers.
pub assume_specification[ char::is_numeric ](c: char) -> (r: bool)
    ensures
        r == unicode_numeric(c),
;

/// `char::is_alphanumeric`: whether the character is alphabetic or numeric.
pub assume_specification[ char::is_alphanumeric ](c: char) -> (r: bool)
    ensures
        r == unicode_alphanumeric(c),
;

/// How strong a password is estimated to be.
#[derive(Debug, Clone, Copy, PartialEq, Eq, Structural)]
pub enum PasswordStrength {
    Weak,
    Medium,
    Strong,
    VeryStrong,
}

/// The text holds an uppercase character.
pub open spec fn has_uppercase(s: Seq<char>) -> bool {
    exists|i: int| 0 <= i < s.len() && unicode_uppercase(#[trigger] s[i])
}

/// The text holds a lowercase character.
pub open spec fn has_lowercase(s: Seq<char>) -> bool {
    exists|i: int| 0 <= i < s.len() && unicode_lowercase(#[trigger] s[i])
}

/// The text holds a numeric character.
pub open spec fn has_digit(s: Seq<char>) -> bool {
    exists|i: int| 0 <= i < s.len() && unicode_numeric(#[trigger] s[i])
}

/// The text holds a character that is neither alphabetic nor numeric.
pub open spec fn has_symbol(s: Seq<char>) -> bool {
    exists|i: int| 0 <= i < s.len() && !unicode_alphanumeric(#[trigger] s[i])
}

/// How many of the four kinds of character a password holds: uppercase,
/// lowercase, numeric, and neither letter nor number.
pub open spec fn variety(s: Seq<char>) -> nat {
    let upper: nat = if has_uppercase(s) { 1 } else { 0 };
    let lower: nat = if has_lowercase(s) { 1 } else { 0 };
    let digit: nat = if has_digit(s) { 1 } else { 0 };
    let symbol: nat = if has_symbol(s) { 1 } else { 0 };
    upper + lower + digit + symbol
}

/// The strength that a length in bytes and a variety stand for.
pub open spec fn strength_for(len: nat, variety: nat) -> PasswordStrength {
    if len < 8 {
        PasswordStrength::Weak
    } else if len < 12 || variety < 3 {
        PasswordStrength::Medium
    } else if len < 16 || variety < 4 {
        PasswordStrength::Strong
    } else {
        PasswordStrength::VeryStrong
    }
}

/// The estimated strength of a password, from its length in bytes of UTF-8
/// and its variety.
pub open spec fn strength_of(s: Seq<char>) -> PasswordStrength {
    strength_for(encode_utf8(s).len(), variety(s))
}

/// Grades a length and a variety.
pub fn grade(len: usize, variety: u8) -> (strength: PasswordStrength)
    ensures
        strength == strength_for(len as nat, variety as nat),
{
    if len < 8 {
        PasswordStrength::Weak
    } else if len < 12 || variety < 3 {
        PasswordStrength::Medium
    } else if len < 16 || variety < 4 {
        PasswordStrength::Strong
    } else {
        PasswordStrength::VeryStrong
    }
}

/// Estimates how strong a password is.
///
/// Under 8 bytes it is weak. Under 12 bytes, or with fewer than three kinds
/// of character, it is medium. Under 16 bytes, or with fewer than four
/// kinds, it is strong. Anything else is very strong.
pub fn estimate_strength(password: &str) -> (strength: PasswordStrength)
    ensures
        strength == strength_of(password@),
{
    let mut upper = false;
    let mut lower = false;
    let mut digit = false;
    let mut symbol = false;
    for c in it: password.chars()
        invariant
            it.seq() == password@,
            upper == has_uppercase(password@.take(it.index() as int)),
            lower == has_lowercase(password@.take(it.index() as int)),
            digit == has_digit(password@.take(it.index() as int)),
            symbol == has_symbol(password@.take(it.index() as int)),
    {
        proof {
            lemma_kinds_step(password@, it.index() as int);
        }
        upper = upper || c.is_uppercase();
        lower = lower || c.is_lowercase();
        digit = digit || c.is_numeric();
        symbol = symbol || !c.is_alphanumeric();
    }
    proof {
        assert(password@.take(password@.len() as int) == password@);
    }
    let mut kinds: u8 = 0;
    if upper {
        kinds = kinds + 1;
    }
    if lower {
        kinds = kinds + 1;
    }
    if digit {
        kinds = kinds + 1;
    }
    if symbol {
        kinds = kinds + 1;
    }
    grade(password.as_bytes().len(), kinds)
}

/// One more character of `s` adds its own kinds to those seen so far.
proof fn lemma_kinds_step(s: Seq<char>, i: int)
    requires
        0 <= i < s.len(),
    ensures
        has_uppercase(s.take(i + 1)) == (has_uppercase(s.take(i)) || unicode_uppercase(s[i])),
        has_lowercase(s.take(i + 1)) == (has_lowercase(s.take(i)) || unicode_lowercase(s[i])),
        has_digit(s.take(i + 1)) == (has_digit(s.take(i)) || unicode_numeric(s[i])),
        has_symbol(s.take(i + 1)) == (has_symbol(s.take(i)) || !unicode_alphanumeric(s[i])),
{
    let a = s.take(i);
    let b = s.take(i + 1);
    assert(b[i] == s[i]);
    assert forall|j: int| 0 <= j < i implies a[j] == b[j] by {}
    if has_uppercase(a) {
        let j = choose|j: int| 0 <= j < a.len() && unicode_uppercase(#[trigger] a[j]);
        assert(unicode_uppercase(b[j]));
    }
    if has_uppercase(b) {
        let j = choose|j: int| 0 <= j < b.len() && unicode_uppercase(#[trigger] b[j]);
        if j < i {
            assert(unicode_uppercase(a[j]));
        }
    }
    if has_lowercase(a) {
        let j = choose|j: int| 0 <= j < a.len() && unicode_lowercase(#[trigger] a[j]);
        assert(unicode_lowercase(b[j]));
    }
    if has_lowercase(b) {
        let j = choose|j: int| 0 <= j < b.len() && unicode_lowercase(#[trigger] b[j]);
        if j < i {
            assert(unicode_lowercase(a[j]));
        }
    }
    if has_digit(a) {
        let j = choose|j: int| 0 <= j < a.len() && unicode_numeric(#[trigger] a[j]);
        assert(unicode_numeric(b[j]));
    }
    if has_digit(b) {
        let j = choose|j: int| 0 <= j < b.len() && unicode_numeric(#[trigger] b[j]);
        if j < i {
            assert(unicode_numeric(a[j]));
        }
    }
    if has_symbol(a) {
        let j = choose|j: int| 0 <= j < a.len() && !unicode_alphanumeric(#[trigger] a[j]);
        assert(!unicode_alphanumeric(b[j]));
    }
    if has_symbol(b) {
        let j = choose|j: int| 0 <= j < b.len() && !unicode_alphanumeric(#[trigger] b[j]);
        if j < i {
            assert(!unicode_alphanumeric(a[j]));
        }
    }
}

impl PasswordStrength {
    /// The text that `label` returns.
    pub open spec fn label_text(self) -> Seq<char> {
        match self {
            PasswordStrength::Weak => "Faible"@,
            PasswordStrength::Medium => "Moyen"@,
            PasswordStrength::Strong => "Fort"@,
            PasswordStrength::VeryStrong => "Très fort"@,
        }
    }

    /// The red, green and blue parts that `color` returns.
    pub open spec fn color_rgb(self) -> (u8, u8, u8) {
        match self {
            PasswordStrength::Weak => (220u8, 53u8, 69u8),
            PasswordStrength::Medium => (255u8, 193u8, 7u8),
            PasswordStrength::Strong => (40u8, 167u8, 69u8),
            PasswordStrength::VeryStrong => (0u8, 123u8, 255u8),
        }
    }

    /// The name of the strength, for display.
    pub fn label(&self) -> (text: &'static str)
        ensures
            text@ == self.label_text(),
    {
        match self {
            PasswordStrength::Weak => "Faible",
            PasswordStrength::Medium => "Moyen",
            PasswordStrength::Strong => "Fort",
            PasswordStrength::VeryStrong => "Très fort",
        }
    }

    /// The color that stands for the strength, as red, green and blue: red
    /// for weak, amber for medium, green for strong, blue for very strong.
    pub fn color(&self) -> (rgb: (u8, u8, u8))
        ensures
            rgb == self.color_rgb(),
    {
        match self {
            PasswordStrength::Weak => (220, 53, 69),
            PasswordStrength::Medium => (255, 193, 7),
            PasswordStrength::Strong => (40, 167, 69),
            PasswordStrength::VeryStrong => (0, 123, 255),
        }
    }
}

} // verus!
