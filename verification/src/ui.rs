use vstd::prelude::*;
use vstd::utf8::{encode_utf8, is_char_boundary};
use crate::text::{chars_of, is_prefix, same_text, starts_with_chars};

verus! {

// ── The UI tree ──────────────────────────────────────────────────

/// One `key = value` property of a UI statement.
#[derive(Debug, Clone)]
pub struct UiProp {
    pub key: String,
    pub val: String,
}

/// How a container lays out its children.
#[derive(Debug, Clone, Copy, PartialEq, Eq, Structural)]
pub enum ContainerKind {
    /// Every child gets the container's whole area.
    ZBox,
    /// Children are stacked top to bottom.
    VBox,
    /// Children are placed left to right.
    HBox,
    /// Children place themselves with `x`/`y`/`width`/`height`.
    Frame,
}

/// The kinds of leaf widgets.
#[derive(Debug, Clone, Copy, PartialEq, Eq, Structural)]
pub enum WidgetKind {
    Text,
    Button,
    Image,
}

/// A statement of a screen definition: a container with children, or a widget.
#[derive(Debug)]
pub enum UiStmt {
    Container { kind: ContainerKind, props: Vec<UiProp>, children: Vec<UiStmt> },
    Widget { kind: WidgetKind, value: Option<String>, props: Vec<UiProp> },
}

/// Horizontal text alignment.
#[derive(Debug, Clone, Copy, PartialEq, Eq, Structural)]
pub enum Alignment {
    Start,
    Center,
    End,
}

/// A color as red, green, blue and alpha bytes.
#[derive(Debug, Clone, Copy, PartialEq, Eq, Structural)]
pub struct Rgba {
    pub r: u8,
    pub g: u8,
    pub b: u8,
    pub a: u8,
}

// ── Property lookup ──────────────────────────────────────────────

/// The value of the first property named `key`, if any.
pub open spec fn prop_value(props: Seq<UiProp>, key: Seq<char>) -> Option<Seq<char>>
    decreases props.len(),
{
    if props.len() == 0 {
        None
    } else if props[0].key@ == key {
        Some(props[0].val@)
    } else {
        prop_value(props.drop_first(), key)
    }
}

/// The properties of a statement, container or widget.
pub open spec fn stmt_props(stmt: UiStmt) -> Seq<UiProp> {
    match stmt {
        UiStmt::Container { props, .. } => props@,
        UiStmt::Widget { props, .. } => props@,
    }
}

/// The properties of a statement.
pub fn child_props(stmt: &UiStmt) -> (r: &Vec<UiProp>)
    ensures
        r@ == stmt_props(*stmt),
{
    match stmt {
        UiStmt::Container { props, .. } => props,
        UiStmt::Widget { props, .. } => props,
    }
}

/// The value of the first property named `key`, if any.
pub fn get_prop_val<'a>(props: &'a [UiProp], key: &str) -> (r: Option<&'a String>)
    ensures
        match r {
            Some(v) => prop_value(props@, key@) == Some(v@),
            None => prop_value(props@, key@) is None,
        },
{
    let n = props.len();
    let mut i: usize = 0;
    assert(props@.skip(0) =~= props@);
    while i < n
        invariant
            n == props@.len(),
            i <= n,
            prop_value(props@, key@) == prop_value(props@.skip(i as int), key@),
        decreases n - i,
    {
        let p = &props[i];
        if same_text(p.key.as_str(), key) {
            return Some(&p.val);
        }
        assert(props@.skip(i as int).drop_first() =~= props@.skip(i + 1));
        i = i + 1;
    }
    None
}

/// The value of the property named `key`, as an owned string.
pub fn get_string_prop(props: &[UiProp], key: &str) -> (r: Option<String>)
    ensures
        match r {
            Some(v) => prop_value(props@, key@) == Some(v@),
            None => prop_value(props@, key@) is None,
        },
{
    match get_prop_val(props, key) {
        Some(v) => Some(v.clone()),
        None => None,
    }
}

/// The alignment that an `align` value names: `center`, `right` or `end`; `Start` otherwise.
pub open spec fn alignment_of(v: Option<Seq<char>>) -> Alignment {
    match v {
        Some(s) => if s == "center"@ {
            Alignment::Center
        } else if s == "right"@ || s == "end"@ {
            Alignment::End
        } else {
            Alignment::Start
        },
        None => Alignment::Start,
    }
}

/// The text alignment that the `align` property asks for.
pub fn get_align_prop(props: &[UiProp]) -> (r: Alignment)
    ensures
        r == alignment_of(prop_value(props@, "align"@)),
{
    match get_prop_val(props, "align") {
        Some(v) => {
            if same_text(v.as_str(), "center") {
                Alignment::Center
            } else if same_text(v.as_str(), "right") || same_text(v.as_str(), "end") {
                Alignment::End
            } else {
                Alignment::Start
            }
        },
        None => Alignment::Start,
    }
}

/// Whether a widget value is a Lua expression to evaluate (`f.…` or `sf.…`) rather than literal text.
pub open spec fn is_dynamic(v: Seq<char>) -> bool {
    is_prefix("f."@, v) || is_prefix("sf."@, v)
}

/// Whether a widget value must be evaluated by Lua (it starts with `f.` or `sf.`).
pub fn is_dynamic_value(val: &str) -> (r: bool)
    ensures
        r == is_dynamic(val@),
{
    let v = chars_of(val);
    let f = chars_of("f.");
    let sf = chars_of("sf.");
    starts_with_chars(v.as_slice(), f.as_slice()) || starts_with_chars(v.as_slice(), sf.as_slice())
}

// ── Colors ───────────────────────────────────────────────────────

/// `b` without its leading `#` bytes.
pub open spec fn strip_hashes(b: Seq<u8>) -> Seq<u8>
    decreases b.len(),
{
    if b.len() > 0 && b[0] == 0x23u8 {
        strip_hashes(b.drop_first())
    } else {
        b
    }
}

/// The value of an ASCII hexadecimal digit, either case.
pub open spec fn hex_digit(b: u8) -> Option<u8> {
    if 0x30 <= b <= 0x39 {
        Some((b - 0x30) as u8)
    } else if 0x61 <= b <= 0x66 {
        Some((b - 0x61 + 10) as u8)
    } else if 0x41 <= b <= 0x46 {
        Some((b - 0x41 + 10) as u8)
    } else {
        None
    }
}

/// What `u8::from_str_radix(_, 16)` gives for the two bytes `b0 b1`: either two
/// hexadecimal digits, or a `+` sign followed by one.
pub open spec fn hex_pair(b0: u8, b1: u8) -> Option<u8> {
    if b0 == 0x2bu8 {
        hex_digit(b1)
    } else {
        match (hex_digit(b0), hex_digit(b1)) {
            (Some(h), Some(l)) => Some((h * 16 + l) as u8),
            _ => None,
        }
    }
}

/// The byte that the pair at position `i` of `h` spells.
pub open spec fn hex_pair_at(h: Seq<u8>, i: int) -> Option<u8> {
    hex_pair(h[i], h[i + 1])
}

/// The color that hex text (without `#`) spells: six digits give an opaque color,
/// eight digits give a color with alpha; any other length gives none.
pub open spec fn color_from_hex(h: Seq<u8>) -> Option<Rgba> {
    if h.len() == 6 {
        match (hex_pair_at(h, 0), hex_pair_at(h, 2), hex_pair_at(h, 4)) {
            (Some(r), Some(g), Some(b)) => Some(Rgba { r, g, b, a: 255 }),
            _ => None,
        }
    } else if h.len() == 8 {
        match (hex_pair_at(h, 0), hex_pair_at(h, 2), hex_pair_at(h, 4), hex_pair_at(h, 6)) {
            (Some(r), Some(g), Some(b), Some(a)) => Some(Rgba { r, g, b, a }),
            _ => None,
        }
    } else {
        None
    }
}

/// The number of leading `#` bytes of `b`.
pub open spec fn hash_count(b: Seq<u8>) -> nat
    decreases b.len(),
{
    if b.len() > 0 && b[0] == 0x23u8 {
        1 + hash_count(b.drop_first())
    } else {
        0
    }
}

/// Whether reading the color text `b` (UTF-8 bytes) two bytes at a time after its leading
/// `#`s would cut a character in two before a pair fails to parse: taking such a slice of a
/// `str` panics.
pub open spec fn color_slicing_panics(b: Seq<u8>) -> bool {
    let s = hash_count(b);
    let h = b.skip(s as int);
    &&& (h.len() == 6 || h.len() == 8)
    &&& exists|k: int|
        #![trigger is_char_boundary(b, s + 2 * k + 2)]
        0 <= k < h.len() / 2 && (forall|j: int| 0 <= j < k ==> #[trigger] hex_pair_at(h, 2 * j) is Some)
            && !is_char_boundary(b, s + 2 * k + 2)
}

/// The hex text of a color value: its UTF-8 bytes without leading `#`.
pub open spec fn color_text(v: Seq<char>) -> Seq<u8> {
    strip_hashes(encode_utf8(v))
}

/// Whether a color property value can be read without cutting a character in two.
pub open spec fn color_prop_readable(v: Option<Seq<char>>) -> bool {
    match v {
        Some(s) => !color_slicing_panics(encode_utf8(s)),
        None => true,
    }
}

/// The color a property value spells, if any.
pub open spec fn color_of(v: Option<Seq<char>>) -> Option<Rgba> {
    match v {
        Some(s) => color_from_hex(color_text(s)),
        None => None,
    }
}

fn hex_digit_of(b: u8) -> (r: Option<u8>)
    ensures
        r == hex_digit(b),
{
    if 0x30 <= b && b <= 0x39 {
        Some(b - 0x30)
    } else if 0x61 <= b && b <= 0x66 {
        Some(b - 0x61 + 10)
    } else if 0x41 <= b && b <= 0x46 {
        Some(b - 0x41 + 10)
    } else {
        None
    }
}

fn hex_pair_of(b0: u8, b1: u8) -> (r: Option<u8>)
    ensures
        r == hex_pair(b0, b1),
{
    if b0 == 0x2b {
        hex_digit_of(b1)
    } else {
        match (hex_digit_of(b0), hex_digit_of(b1)) {
            (Some(h), Some(l)) => Some(h * 16 + l),
            _ => None,
        }
    }
}

proof fn lemma_hash_count(b: Seq<u8>, i: int)
    requires
        0 <= i <= b.len(),
        forall|k: int| 0 <= k < i ==> b[k] == 0x23u8,
    ensures
        hash_count(b) == i + hash_count(b.skip(i)),
        strip_hashes(b) == strip_hashes(b.skip(i)),
    decreases i,
{
    if i > 0 {
        assert(b[0] == 0x23u8);
        let d = b.drop_first();
        assert forall|k: int| 0 <= k < i - 1 implies d[k] == 0x23u8 by {
            assert(d[k] == b[k + 1]);
        }
        lemma_hash_count(d, i - 1);
        assert(d.skip(i - 1) =~= b.skip(i));
    } else {
        assert(b.skip(0) =~= b);
    }
}

/// Whether the color property `key` can be read without cutting a character in two (what
/// `get_color_prop` requires).
pub fn color_prop_is_readable(props: &[UiProp], key: &str) -> (r: bool)
    ensures
        r == color_prop_readable(prop_value(props@, key@)),
{
    let val = match get_prop_val(props, key) {
        Some(v) => v,
        None => return true,
    };
    let st = val.as_str();
    let bytes = st.as_bytes();
    let ghost b = bytes@;
    assert(b == encode_utf8(val@));
    let n = bytes.len();
    let mut i: usize = 0;
    while i < n && bytes[i] == 0x23
        invariant
            n == b.len(),
            b == bytes@,
            i <= n,
            forall|k: int| 0 <= k < i ==> b[k] == 0x23u8,
        decreases n - i,
    {
        i = i + 1;
    }
    proof {
        lemma_hash_count(b, i as int);
        assert(hash_count(b.skip(i as int)) == 0) by {
            if i < n {
                assert(b.skip(i as int)[0] == b[i as int]);
            }
        }
    }
    let ghost h = b.skip(i as int);
    let len = n - i;
    if len != 6 && len != 8 {
        return true;
    }
    let half = len / 2;
    let mut k: usize = 0;
    while k < half
        invariant
            n == b.len(),
            b == bytes@,
            b == encode_utf8(st@),
            b == encode_utf8(val@),
            prop_value(props@, key@) == Some(val@),
            hash_count(b) == i,
            h == b.skip(i as int),
            len == n - i,
            len == 6 || len == 8,
            half == len / 2,
            k <= half,
            forall|j: int|
                0 <= j < k ==> #[trigger] hex_pair_at(h, 2 * j) is Some && is_char_boundary(
                    b,
                    i + 2 * j + 2,
                ),
        decreases half - k,
    {
        if !st.is_char_boundary(i + 2 * k + 2) {
            assert(forall|j: int| 0 <= j < k ==> #[trigger] hex_pair_at(h, 2 * j) is Some);
            return false;
        }
        assert(h[2 * k as int] == bytes@[i + 2 * k]);
        assert(h[2 * k + 1] == bytes@[i + 2 * k + 1]);
        if hex_pair_of(bytes[i + 2 * k], bytes[i + 2 * k + 1]).is_none() {
            assert forall|kk: int|
                #![trigger is_char_boundary(b, i + 2 * kk + 2)]
                0 <= kk < h.len() / 2 && (forall|j: int| 0 <= j < kk ==> #[trigger] hex_pair_at(h, 2 * j) is Some)
                implies is_char_boundary(b, i + 2 * kk + 2) by {
                if kk > k {
                    assert(hex_pair_at(h, 2 * k) is Some);
                } else if kk < k {
                    assert(hex_pair_at(h, 2 * kk) is Some && is_char_boundary(b, i + 2 * kk + 2));
                }
            }
            return true;
        }
        k = k + 1;
    }
    assert forall|kk: int|
        #![trigger is_char_boundary(b, i + 2 * kk + 2)]
        0 <= kk < h.len() / 2 && (forall|j: int| 0 <= j < kk ==> #[trigger] hex_pair_at(h, 2 * j) is Some)
        implies is_char_boundary(b, i + 2 * kk + 2) by {
        assert(hex_pair_at(h, 2 * kk) is Some && is_char_boundary(b, i + 2 * kk + 2));
    }
    true
}

/// Reads a color from hex text (without `#`): `rrggbb` or `rrggbbaa`.
pub fn color_from_hex_bytes(h: &[u8]) -> (r: Option<Rgba>)
    ensures
        r == color_from_hex(h@),
{
    if h.len() != 6 && h.len() != 8 {
        return None;
    }
    let r = match hex_pair_of(h[0], h[1]) {
        Some(v) => v,
        None => return None,
    };
    let g = match hex_pair_of(h[2], h[3]) {
        Some(v) => v,
        None => return None,
    };
    let b = match hex_pair_of(h[4], h[5]) {
        Some(v) => v,
        None => return None,
    };
    if h.len() == 6 {
        Some(Rgba { r, g, b, a: 255 })
    } else {
        match hex_pair_of(h[6], h[7]) {
            Some(a) => Some(Rgba { r, g, b, a }),
            None => None,
        }
    }
}

/// The color that the property `key` holds, written `#rrggbb` (opaque) or `#rrggbbaa`;
/// any number of leading `#` is ignored. None when the property is missing or is not such a color.
pub fn get_color_prop(props: &[UiProp], key: &str) -> (r: Option<Rgba>)
    requires
        color_prop_readable(prop_value(props@, key@)),
    ensures
        r == color_of(prop_value(props@, key@)),
{
    let val = match get_prop_val(props, key) {
        Some(v) => v,
        None => return None,
    };
    let bytes = val.as_str().as_bytes();
    let n = bytes.len();
    let mut i: usize = 0;
    assert(bytes@.skip(0) =~= bytes@);
    while i < n && bytes[i] == 0x23
        invariant
            n == bytes@.len(),
            i <= n,
            strip_hashes(bytes@) == strip_hashes(bytes@.skip(i as int)),
        decreases n - i,
    {
        assert(bytes@.skip(i as int).drop_first() =~= bytes@.skip(i + 1));
        i = i + 1;
    }
    let hex = &bytes[i..n];
    assert(hex@ =~= bytes@.skip(i as int));
    color_from_hex_bytes(hex)
}

// ── Laws ─────────────────────────────────────────────────────────

/// A `#` in front of a color value changes nothing: any number of leading `#` is ignored.
pub proof fn law_leading_hash_ignored(v: Seq<char>)
    ensures
        color_text(seq!['#'] + v) == color_text(v),
        color_of(Some(seq!['#'] + v)) == color_of(Some(v)),
{
    let s = seq!['#'] + v;
    assert(s[0] == '#');
    assert(s.drop_first() =~= v);
    assert(encode_utf8(s) == vstd::utf8::encode_scalar(s[0] as u32) + encode_utf8(s.drop_first()));
    assert(('#' as u32) == 0x23u32);
    assert(0x23u32 & 0x7Fu32 == 0x23u32) by (bit_vector);
    assert(vstd::utf8::encode_scalar('#' as u32) =~= seq![0x23u8]);
    assert((seq![0x23u8] + encode_utf8(v)).drop_first() =~= encode_utf8(v));
}

/// Six hex digits give an opaque color; eight give the alpha byte too, and the first six
/// of them give the same red, green and blue.
pub proof fn law_short_form_is_opaque(h: Seq<u8>)
    requires
        h.len() == 8,
    ensures
        color_from_hex(h.take(6)) matches Some(c) ==> c.a == 255,
        color_from_hex(h) matches Some(c8) ==> (color_from_hex(h.take(6)) matches Some(c6) && c6.r
            == c8.r && c6.g == c8.g && c6.b == c8.b),
{
    let t = h.take(6);
    assert(t[0] == h[0] && t[1] == h[1] && t[2] == h[2] && t[3] == h[3] && t[4] == h[4] && t[5]
        == h[5]);
}

/// Hex digits may be written in either case.
pub proof fn law_hex_case_insensitive(b: u8)
    requires
        0x61 <= b <= 0x66,
    ensures
        hex_digit(b) == hex_digit((b - 0x20) as u8),
        hex_digit(b) is Some,
{
}

/// When several properties share a name, the first one counts.
pub proof fn law_first_property_wins(p: UiProp, rest: Seq<UiProp>)
    ensures
        prop_value(seq![p] + rest, p.key@) == Some(p.val@),
{
    assert((seq![p] + rest)[0] == p);
}

// ── What reading hex colors gives ────────────────────────────────

/// The ASCII hex digit for `d` (below 16), in lower or upper case.
pub open spec fn hex_char(d: nat, upper: bool) -> u8 {
    if d < 10 {
        (0x30 + d) as u8
    } else if upper {
        (0x41 + d - 10) as u8
    } else {
        (0x61 + d - 10) as u8
    }
}

/// Every hex digit, in either case, reads as its value, and only hex digits read as a value:
/// a byte that reads as `v` is the digit for `v` in one of the two cases.
pub proof fn law_hex_digit_values(d: nat, upper: bool, b: u8)
    requires
        d < 16,
    ensures
        hex_digit(hex_char(d, upper)) == Some(d as u8),
        hex_digit(b) matches Some(v) ==> v < 16 && (b == hex_char(v as nat, false) || b == hex_char(
            v as nat,
            true,
        )),
{
}

/// Writing a byte as two hex digits and reading the pair back gives the byte.
pub proof fn law_hex_pair_round_trip(v: u8, upper: bool)
    ensures
        hex_pair(hex_char((v / 16) as nat, upper), hex_char((v % 16) as nat, upper)) == Some(v),
{
    law_hex_digit_values((v / 16) as nat, upper, 0);
    law_hex_digit_values((v % 16) as nat, upper, 0);
    assert(hex_char((v / 16) as nat, upper) != 0x2bu8);
}

/// The six hex digits of red, green and blue.
pub open spec fn rgb_hex(r: u8, g: u8, b: u8, upper: bool) -> Seq<u8> {
    seq![
        hex_char((r / 16) as nat, upper),
        hex_char((r % 16) as nat, upper),
        hex_char((g / 16) as nat, upper),
        hex_char((g % 16) as nat, upper),
        hex_char((b / 16) as nat, upper),
        hex_char((b % 16) as nat, upper),
    ]
}

/// A color written as `rrggbb` reads back as that opaque color, and written as `rrggbbaa`
/// reads back with that alpha, whatever the case of the digits.
pub proof fn law_color_round_trip(r: u8, g: u8, b: u8, a: u8, upper: bool)
    ensures
        color_from_hex(rgb_hex(r, g, b, upper)) == Some(Rgba { r, g, b, a: 255 }),
        color_from_hex(
            rgb_hex(r, g, b, upper) + seq![
                hex_char((a / 16) as nat, upper),
                hex_char((a % 16) as nat, upper),
            ],
        ) == Some(Rgba { r, g, b, a }),
{
    law_hex_pair_round_trip(r, upper);
    law_hex_pair_round_trip(g, upper);
    law_hex_pair_round_trip(b, upper);
    law_hex_pair_round_trip(a, upper);
    let h8 = rgb_hex(r, g, b, upper) + seq![
        hex_char((a / 16) as nat, upper),
        hex_char((a % 16) as nat, upper),
    ];
    assert(h8.len() == 8);
    assert(h8[0] == rgb_hex(r, g, b, upper)[0] && h8[1] == rgb_hex(r, g, b, upper)[1]);
    assert(h8[2] == rgb_hex(r, g, b, upper)[2] && h8[3] == rgb_hex(r, g, b, upper)[3]);
    assert(h8[4] == rgb_hex(r, g, b, upper)[4] && h8[5] == rgb_hex(r, g, b, upper)[5]);
}

/// A color property written `#rrggbb` gives that opaque color.
pub proof fn law_color_prop_round_trip(r: u8, g: u8, b: u8, upper: bool)
    ensures
        color_of(
            Some(seq!['#'].add(rgb_hex(r, g, b, upper).map_values(|x: u8| x as char))),
        ) == Some(Rgba { r, g, b, a: 255 }),
{
    let h = rgb_hex(r, g, b, upper);
    let v = seq!['#'].add(h.map_values(|x: u8| x as char));
    assert forall|i: int| 0 <= i < h.len() implies #[trigger] h[i] < 0x7f && h[i] != 0x23u8 by {}
    assert(vstd::utf8::is_ascii_chars(v)) by {
        assert forall|i| 0 <= i < v.len() implies '\0' <= #[trigger] v[i] <= '\u{7f}' by {
            if i > 0 {
                assert(v[i] == h[i - 1] as char);
            }
        }
    }
    vstd::utf8::is_ascii_chars_encode_utf8(v);
    let e = encode_utf8(v);
    assert(e.len() == 7);
    assert(e[0] == 0x23u8) by {
        assert(v[0] == '#');
    }
    assert forall|i: int| 0 <= i < 6 implies #[trigger] e[i + 1] == h[i] by {
        assert(v[i + 1] == h[i] as char);
        assert(v[i + 1] as u8 == e[i + 1]);
    }
    assert(e.drop_first() =~= h);
    assert(h[0] != 0x23u8);
    assert(strip_hashes(e) == strip_hashes(e.drop_first()));
    assert(strip_hashes(h) == h);
    law_color_round_trip(r, g, b, 0, upper);
}

/// The value found for a key is that of the first property with the key; when none is
/// found, no property has the key.
pub proof fn law_prop_value_is_first_match(props: Seq<UiProp>, key: Seq<char>)
    ensures
        prop_value(props, key) matches Some(v) ==> exists|i: int|
            0 <= i < props.len() && props[i].key@ == key && props[i].val@ == v && forall|j: int|
                0 <= j < i ==> (#[trigger] props[j]).key@ != key,
        prop_value(props, key) is None ==> forall|i: int|
            0 <= i < props.len() ==> (#[trigger] props[i]).key@ != key,
    decreases props.len(),
{
    if props.len() > 0 && props[0].key@ != key {
        let d = props.drop_first();
        law_prop_value_is_first_match(d, key);
        if let Some(v) = prop_value(props, key) {
            let i = choose|i: int|
                0 <= i < d.len() && d[i].key@ == key && d[i].val@ == v && forall|j: int|
                    0 <= j < i ==> (#[trigger] d[j]).key@ != key;
            assert(props[i + 1] == d[i]);
            assert forall|j: int| 0 <= j < i + 1 implies (#[trigger] props[j]).key@ != key by {
                if j > 0 {
                    assert(props[j] == d[j - 1]);
                }
            }
        } else {
            assert forall|i: int| 0 <= i < props.len() implies (#[trigger] props[i]).key@ != key by {
                if i > 0 {
                    assert(props[i] == d[i - 1]);
                }
            }
        }
    }
}

/// A value is evaluated by Lua exactly when it starts with `f.` or `sf.`: any text after
/// either prefix makes it dynamic, and a value starting with another character is literal.
pub proof fn law_dynamic_values(rest: Seq<char>, v: Seq<char>)
    ensures
        is_dynamic("f."@ + rest),
        is_dynamic("sf."@ + rest),
        v.len() > 0 && v[0] != 'f' && v[0] != 's' ==> !is_dynamic(v),
        v.len() < 2 ==> !is_dynamic(v),
{
    reveal_strlit("f.");
    reveal_strlit("sf.");
    assert(("f."@ + rest).take(2) =~= "f."@);
    assert(("sf."@ + rest).take(3) =~= "sf."@);
    if v.len() > 0 && is_prefix("f."@, v) {
        assert(v.take(2)[0] == v[0]);
    }
    if v.len() > 0 && is_prefix("sf."@, v) {
        assert(v.take(3)[0] == v[0]);
    }
}

} // verus!
