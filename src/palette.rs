use vstd::prelude::*;
use vstd::string::*;
use std::hash::BuildHasher;
use crate::text::{ends_with_text, push_char};

verus! {

/// The hash that std's `DefaultHasher`, made by `new`, gives a class name.
pub uninterp spec fn class_hash_of(name: Seq<char>) -> u64;

/// Relies on `BuildHasher::hash_one` over `BuildHasherDefault<DefaultHasher>`:
/// every `DefaultHasher::new()` starts from the same keys, so the hash
/// depends on the name alone.
#[verifier::external_body]
fn class_hash(name: &str) -> (r: u64)
    ensures
        r == class_hash_of(name@),
{
    std::hash::BuildHasherDefault::<std::collections::hash_map::DefaultHasher>::default().hash_one(name)
}

pub open spec fn hex_digit(d: nat) -> char {
    if d < 10 {
        ((48 + d) as u8) as char
    } else {
        ((87 + d) as u8) as char
    }
}

/// Lower-case hexadecimal digits of `n`, without leading zeros.
pub open spec fn hex_digits(n: nat) -> Seq<char>
    decreases n,
{
    if n < 16 {
        seq![hex_digit(n)]
    } else {
        hex_digits(n / 16).push(hex_digit(n % 16))
    }
}

/// Relies on std's `{:x}` formatting: lower-case hexadecimal digits without
/// leading zeros.
#[verifier::external_body]
fn lower_hex(n: u32) -> (r: String)
    ensures
        r@ == hex_digits(n as nat),
{
    format!("{:x}", n)
}

/// `s` with zeros in front up to `width` characters.
pub open spec fn zero_padded(s: Seq<char>, width: nat) -> Seq<char> {
    if s.len() >= width {
        s
    } else {
        Seq::new((width - s.len()) as nat, |i: int| '0') + s
    }
}

/// The placeholder colour of a class name: `#` and the first six hex digits
/// of the low 32 bits of its hash (zero-padded when there are fewer).
pub open spec fn placeholder_of(name: Seq<char>) -> Seq<char> {
    seq!['#'] + zero_padded(hex_digits((class_hash_of(name) % 0x1_0000_0000) as nat), 6).take(6)
}

/// The placeholder colour that stands for a class name until the palette
/// is applied.
pub fn placeholder(name: &str) -> (r: String)
    ensures
        r@ == placeholder_of(name@),
{
    let h = class_hash(name);
    let digits = lower_hex((h % 0x1_0000_0000) as u32);
    let n = digits.unicode_len();
    let mut out = String::new();
    push_char(&mut out, '#');
    let ghost padded = zero_padded(digits@, 6);
    let mut i: usize = 0;
    if n < 6 {
        while i < 6 - n
            invariant
                n == digits@.len(),
                n < 6,
                i <= 6 - n,
                out@ == seq!['#'] + padded.take(i as int),
                padded == Seq::new((6 - n) as nat, |k: int| '0') + digits@,
            decreases 6 - n - i,
        {
            push_char(&mut out, '0');
            assert(padded.take(i + 1) =~= padded.take(i as int).push('0'));
            i = i + 1;
        }
    }
    let mut j: usize = 0;
    while j < n && i < 6
        invariant
            n == digits@.len(),
            padded == zero_padded(digits@, 6),
            padded.len() >= 6,
            i <= 6,
            j <= n,
            n < 6 ==> i == j + (6 - n),
            n >= 6 ==> i == j,
            out@ == seq!['#'] + padded.take(i as int),
        decreases 6 - i,
    {
        let c = digits.get_char(j);
        assert(padded[i as int] == c);
        assert(padded.take(i + 1) =~= padded.take(i as int).push(c));
        push_char(&mut out, c);
        i = i + 1;
        j = j + 1;
    }
    proof {
        assert(padded.len() >= 6);
        assert(i == 6);
    }
    assert(out@ =~= placeholder_of(name@));
    out
}

/// The style rule that gives a class its placeholder colour: a stroke for
/// `<role>_outline` classes, a fill for the others.
pub open spec fn style_rule_of(class: Seq<char>) -> Seq<char> {
    let outline = class.len() >= 8 && class.skip(class.len() - 8) == "_outline"@;
    seq!['.'] + class + (if outline { " { stroke: "@ } else { " { fill: "@ }) + placeholder_of(class) + "; }"@
}

/// The CSS rule that paints a class with its placeholder colour.
pub fn style_rule(class: &str) -> (r: String)
    ensures
        r@ == style_rule_of(class@),
{
    proof {
        reveal_strlit("_outline");
    }
    let mut out = String::new();
    push_char(&mut out, '.');
    out.append(class);
    if ends_with_text(class, "_outline") {
        out.append(" { stroke: ");
    } else {
        out.append(" { fill: ");
    }
    let p = placeholder(class);
    out.append(p.as_str());
    out.append("; }");
    out
}

/// One colour of a palette: a role such as `skin` or `skin_outline`, and
/// its `#rrggbb` colour.
pub struct PaletteEntry {
    pub role: String,
    pub color: String,
}

pub open spec fn entry_roles(p: Seq<PaletteEntry>) -> Seq<Seq<char>> {
    p.map_values(|e: PaletteEntry| e.role@)
}

/// Index of the first role whose placeholder is `c`.
pub open spec fn role_for(roles: Seq<Seq<char>>, c: Seq<char>) -> Option<nat>
    decreases roles.len(),
{
    if roles.len() == 0 {
        None
    } else {
        match role_for(roles.drop_last(), c) {
            Some(i) => Some(i),
            None => if placeholder_of(roles.last()) == c {
                Some((roles.len() - 1) as nat)
            } else {
                None
            },
        }
    }
}

proof fn lemma_role_for_prefix(roles: Seq<Seq<char>>, k: int, c: Seq<char>)
    requires
        0 <= k <= roles.len(),
        role_for(roles.take(k), c) is Some,
    ensures
        role_for(roles, c) == role_for(roles.take(k), c),
    decreases roles.len(),
{
    if roles.len() > k {
        assert(roles.drop_last().take(k) =~= roles.take(k));
        lemma_role_for_prefix(roles.drop_last(), k, c);
    } else {
        assert(roles.take(k) =~= roles);
    }
}

/// The colour that replaces a fill or stroke `color`: the palette colour of
/// the first role whose placeholder it is; other colours stay.
pub open spec fn recolored(p: Seq<PaletteEntry>, color: Seq<char>) -> Option<Seq<char>> {
    match role_for(entry_roles(p), color) {
        Some(i) => Some(p[i as int].color@),
        None => None,
    }
}

/// The palette colour that replaces a placeholder colour, if `color` is the
/// placeholder of one of the palette's roles.
pub fn palette_color_for(palette: &Vec<PaletteEntry>, color: &str) -> (r: Option<String>)
    ensures
        match recolored(palette@, color@) {
            Some(c) => r matches Some(s) && s@ == c,
            None => r is None,
        },
{
    let ghost roles = entry_roles(palette@);
    let mut i: usize = 0;
    assert(roles.take(0) =~= Seq::<Seq<char>>::empty());
    while i < palette.len()
        invariant
            i <= palette@.len(),
            roles == entry_roles(palette@),
            role_for(roles.take(i as int), color@) is None,
        decreases palette@.len() - i,
    {
        assert(roles.take(i + 1).drop_last() =~= roles.take(i as int));
        assert(roles[i as int] == palette@[i as int].role@);
        let p = placeholder(palette[i].role.as_str());
        if crate::text::same_text(p.as_str(), color) {
            proof {
                lemma_role_for_prefix(roles, i + 1, color@);
            }
            return Some(palette[i].color.clone());
        }
        i = i + 1;
    }
    assert(roles.take(i as int) =~= roles);
    None
}

} // verus!
