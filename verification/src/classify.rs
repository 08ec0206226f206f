//! Naming conventions that the extraction reads: wall-layer hints, door
//! and window block names, the width a block name ends with, the number in
//! a dimension text, DIMENSION kinds, and the drawing-convention probe.

use vstd::prelude::*;

use crate::entity::{DimensionKindRaw, Entity};
use crate::numeric::is_digit;
use crate::semantic::{DimensionKind, OpeningKind, WallKind};
use crate::text::{push_char, text_eq, trim, trim_seq};

verus! {

/// What `to_lowercase` makes of a character, as far as the ASCII words
/// below can tell: ASCII capitals become small letters. (Of the other
/// characters, none lowercases to a sequence that holds one of these
/// words' letters where the word could match.)
pub open spec fn fold_lower(c: char) -> char {
    if 'A' <= c && c <= 'Z' {
        ((c as u32) + 32) as char
    } else {
        c
    }
}

/// What `to_uppercase` makes of a character, as far as the ASCII words
/// below can tell: ASCII small letters become capitals, and the dotless
/// `ı` becomes `I`.
pub open spec fn fold_upper(c: char) -> char {
    if 'a' <= c && c <= 'z' {
        ((c as u32) - 32) as char
    } else if c == '\u{131}' {
        'I'
    } else {
        c
    }
}

/// `w` stands in `s` at index `i`, each character of `s` folded by `f`.
pub open spec fn word_at(s: Seq<char>, w: Seq<char>, i: int, f: spec_fn(char) -> char) -> bool {
    0 <= i && i + w.len() <= s.len() && forall|k: int|
        0 <= k < w.len() ==> f(#[trigger] s[i + k]) == w[k]
}

pub open spec fn has_word(s: Seq<char>, w: Seq<char>, f: spec_fn(char) -> char) -> bool {
    exists|i: int| word_at(s, w, i, f)
}

pub open spec fn ident(c: char) -> char {
    c
}

fn lower_char(c: char) -> (r: char)
    ensures
        r == fold_lower(c),
{
    if 'A' <= c && c <= 'Z' {
        ((c as u32) + 32) as u8 as char
    } else {
        c
    }
}

fn upper_char(c: char) -> (r: char)
    ensures
        r == fold_upper(c),
{
    if 'a' <= c && c <= 'z' {
        ((c as u32) - 32) as u8 as char
    } else if c == '\u{131}' {
        'I'
    } else {
        c
    }
}

/// A character folded as `fold` says: 0 keeps it, 1 lowers it, 2 raises
/// it.
pub open spec fn fold_by(fold: u8) -> spec_fn(char) -> char {
    if fold == 1 {
        |c: char| fold_lower(c)
    } else if fold == 2 {
        |c: char| fold_upper(c)
    } else {
        |c: char| ident(c)
    }
}

fn fold_char(c: char, fold: u8) -> (r: char)
    ensures
        r == (fold_by(fold))(c),
{
    if fold == 1 {
        lower_char(c)
    } else if fold == 2 {
        upper_char(c)
    } else {
        c
    }
}

/// Whether `w` stands in `s` at index `i`.
fn word_at_index(s: &str, w: &str, i: usize, fold: u8) -> (b: bool)
    requires
        i + w@.len() <= s@.len(),
    ensures
        b == word_at(s@, w@, i as int, fold_by(fold)),
{
    let n = w.unicode_len();
    let sn = s.unicode_len();
    let mut k: usize = 0;
    while k < n
        invariant
            n == w@.len(),
            sn == s@.len(),
            i + n <= s@.len(),
            k <= n,
            forall|m: int| 0 <= m < k ==> (fold_by(fold))(#[trigger] s@[i + m]) == w@[m],
        decreases n - k,
    {
        if fold_char(s.get_char(i + k), fold) != w.get_char(k) {
            return false;
        }
        k = k + 1;
    }
    true
}

/// Whether `w` stands somewhere in `s`, each character of `s` folded.
fn contains_word(s: &str, w: &str, fold: u8) -> (b: bool)
    ensures
        b == has_word(s@, w@, fold_by(fold)),
{
    let n = s.unicode_len();
    let m = w.unicode_len();
    if m > n {
        return false;
    }
    let mut i: usize = 0;
    while i <= n - m
        invariant
            n == s@.len(),
            m == w@.len(),
            m <= n,
            i <= n - m + 1,
            forall|j: int| 0 <= j < i ==> !word_at(s@, w@, j, fold_by(fold)),
        decreases n - i,
    {
        if word_at_index(s, w, i, fold) {
            return true;
        }
        i = i + 1;
    }
    false
}

/// The kind a wall's layer name says, if it says one: `EXTR` (any case)
/// or `외벽` for exterior, `INTR` or `내벽` for interior, `PART` or `파티션`
/// for partition, in this order.
pub open spec fn wall_hint(layer: Seq<char>) -> Option<WallKind> {
    if has_word(layer, "extr"@, fold_by(1)) || has_word(layer, "외벽"@, fold_by(0)) {
        Some(WallKind::Exterior)
    } else if has_word(layer, "intr"@, fold_by(1)) || has_word(layer, "내벽"@, fold_by(0)) {
        Some(WallKind::Interior)
    } else if has_word(layer, "part"@, fold_by(1)) || has_word(layer, "파티션"@, fold_by(0)) {
        Some(WallKind::Partition)
    } else {
        None
    }
}

/// The wall kind that a layer name hints at.
pub fn layer_wall_hint(layer: &str) -> (r: Option<WallKind>)
    ensures
        r == wall_hint(layer@),
{
    if contains_word(layer, "extr", 1) || contains_word(layer, "외벽", 0) {
        Some(WallKind::Exterior)
    } else if contains_word(layer, "intr", 1) || contains_word(layer, "내벽", 0) {
        Some(WallKind::Interior)
    } else if contains_word(layer, "part", 1) || contains_word(layer, "파티션", 0) {
        Some(WallKind::Partition)
    } else {
        None
    }
}

/// Where a wall's thickness stands against the exterior and interior
/// thresholds of the hierarchy configuration.
#[derive(Debug, Clone, Copy, PartialEq, Eq, Structural)]
pub enum ThicknessBand {
    /// At least the exterior threshold.
    Exterior,
    /// Below it, and at least the interior threshold.
    Interior,
    /// Below both.
    Thin,
}

/// A wall's kind: the layer-name hint if there is one, else by thickness.
pub open spec fn wall_kind(layer: Seq<char>, band: ThicknessBand) -> WallKind {
    match wall_hint(layer) {
        Some(k) => k,
        None => match band {
            ThicknessBand::Exterior => WallKind::Exterior,
            ThicknessBand::Interior => WallKind::Interior,
            ThicknessBand::Thin => WallKind::Partition,
        },
    }
}

/// Classifies a wall as exterior, interior or partition: by its layer name
/// first, then by its thickness.
pub fn classify_one_wall(layer: &str, band: ThicknessBand) -> (k: WallKind)
    ensures
        k == wall_kind(layer@, band),
{
    match layer_wall_hint(layer) {
        Some(k) => k,
        None => match band {
            ThicknessBand::Exterior => WallKind::Exterior,
            ThicknessBand::Interior => WallKind::Interior,
            ThicknessBand::Thin => WallKind::Partition,
        },
    }
}

/// `w` starts `s`, each character of `s` raised to upper case.
pub open spec fn starts_upper(s: Seq<char>, w: Seq<char>) -> bool {
    word_at(s, w, 0, fold_by(2))
}

pub open spec fn names_contain(names: Seq<Seq<char>>, n: Seq<char>) -> bool {
    exists|i: int| 0 <= i < names.len() && names[i] == n
}

/// The opening kind that a block name says (`DOOR…`, `…DOOR_…` for doors;
/// `WINDOW…`, `WIN_…`, `…WINDOW_…` for windows, in any case), or failing
/// that the layer the block is inserted on.
pub open spec fn block_kind(
    name: Seq<char>,
    layer: Seq<char>,
    door_layers: Seq<Seq<char>>,
    window_layers: Seq<Seq<char>>,
) -> Option<OpeningKind> {
    if starts_upper(name, "DOOR"@) || has_word(name, "DOOR_"@, fold_by(2)) {
        Some(OpeningKind::Door)
    } else if starts_upper(name, "WINDOW"@) || starts_upper(name, "WIN_"@) || has_word(
        name,
        "WINDOW_"@,
        fold_by(2),
    ) {
        Some(OpeningKind::Window)
    } else if names_contain(door_layers, layer) {
        Some(OpeningKind::Door)
    } else if names_contain(window_layers, layer) {
        Some(OpeningKind::Window)
    } else {
        None
    }
}

fn starts_with_word(s: &str, w: &str) -> (b: bool)
    ensures
        b == starts_upper(s@, w@),
{
    if w.unicode_len() > s.unicode_len() {
        false
    } else {
        word_at_index(s, w, 0, 2)
    }
}

/// Whether `n` is one of `names`, as a layer among the layers that a rule
/// looks at.
pub fn in_names(names: &[String], n: &str) -> (b: bool)
    ensures
        b == names_contain(names@.map_values(|s: String| s@), n@),
{
    let ghost v = names@.map_values(|s: String| s@);
    let mut i: usize = 0;
    while i < names.len()
        invariant
            i <= names@.len(),
            v == names@.map_values(|s: String| s@),
            forall|j: int| 0 <= j < i ==> v[j] != n@,
        decreases names@.len() - i,
    {
        if text_eq(names[i].as_str(), n) {
            assert(v[i as int] == n@);
            return true;
        }
        i = i + 1;
    }
    false
}

/// Classifies an INSERT as a door or a window by its block name, or by
/// the layer it is inserted on.
pub fn classify_block(
    block_name: &str,
    layer: &str,
    door_layers: &[String],
    window_layers: &[String],
) -> (k: Option<OpeningKind>)
    ensures
        k == block_kind(
            block_name@,
            layer@,
            door_layers@.map_values(|s: String| s@),
            window_layers@.map_values(|s: String| s@),
        ),
{
    if starts_with_word(block_name, "DOOR") || contains_word(block_name, "DOOR_", 2) {
        Some(OpeningKind::Door)
    } else if starts_with_word(block_name, "WINDOW") || starts_with_word(block_name, "WIN_")
        || contains_word(block_name, "WINDOW_", 2) {
        Some(OpeningKind::Window)
    } else if in_names(door_layers, layer) {
        Some(OpeningKind::Door)
    } else if in_names(window_layers, layer) {
        Some(OpeningKind::Window)
    } else {
        None
    }
}

/// The ASCII digits that end `s`.
pub open spec fn trailing_digits(s: Seq<char>) -> Seq<char>
    decreases s.len(),
{
    if s.len() > 0 && is_digit(s.last()) {
        trailing_digits(s.drop_last()).push(s.last())
    } else {
        seq![]
    }
}

proof fn lemma_trailing_digits(s: Seq<char>, k: int)
    requires
        0 <= k <= s.len(),
        forall|i: int| k <= i < s.len() ==> is_digit(#[trigger] s[i]),
        k == 0 || !is_digit(s[k - 1]),
    ensures
        trailing_digits(s) == s.skip(k),
    decreases s.len(),
{
    if s.len() > k {
        lemma_trailing_digits(s.drop_last(), k);
        assert(s.drop_last().skip(k).push(s.last()) =~= s.skip(k));
    } else {
        assert(s.skip(k) =~= Seq::<char>::empty());
    }
}

/// The width that a block name ends with, as its digits (`DOOR_800` gives
/// `800`); empty where the name ends in no digit.
pub fn block_width_digits(block_name: &str) -> (r: String)
    ensures
        r@ == trailing_digits(block_name@),
{
    let n = block_name.unicode_len();
    let mut k = n;
    while k > 0 && crate::numeric::is_digit_char(block_name.get_char(k - 1))
        invariant
            n == block_name@.len(),
            k <= n,
            forall|i: int| k <= i < n ==> is_digit(#[trigger] block_name@[i]),
        decreases k,
    {
        k = k - 1;
    }
    proof {
        lemma_trailing_digits(block_name@, k as int);
    }
    let mut r = String::new();
    let mut i = k;
    while i < n
        invariant
            n == block_name@.len(),
            k <= i <= n,
            r@ == block_name@.subrange(k as int, i as int),
        decreases n - i,
    {
        let c = block_name.get_char(i);
        push_char(&mut r, c);
        assert(r@ =~= block_name@.subrange(k as int, i + 1));
        i = i + 1;
    }
    assert(block_name@.subrange(k as int, n as int) =~= block_name@.skip(k as int));
    r
}

/// The characters that a dimension text keeps for its number: digits,
/// `.` and `-`.
pub open spec fn number_chars(s: Seq<char>) -> Seq<char>
    decreases s.len(),
{
    if s.len() == 0 {
        seq![]
    } else {
        let c = s.last();
        if is_digit(c) || c == '.' || c == '-' {
            number_chars(s.drop_last()).push(c)
        } else {
            number_chars(s.drop_last())
        }
    }
}

/// The number part of a dimension text: none for a blank text, otherwise
/// its digits, points and minus signs (unit suffixes dropped), which the
/// caller reads as a number.
pub fn dimension_text_digits(s: &str) -> (r: Option<String>)
    ensures
        r matches Some(t) ==> trim_seq(s@).len() > 0 && t@ == number_chars(trim_seq(s@)),
        r is None ==> trim_seq(s@).len() == 0,
{
    let t = trim(s);
    let n = t.unicode_len();
    if n == 0 {
        return None;
    }
    let mut r = String::new();
    let mut i: usize = 0;
    while i < n
        invariant
            n == t@.len(),
            i <= n,
            r@ == number_chars(t@.take(i as int)),
        decreases n - i,
    {
        let c = t.as_str().get_char(i);
        assert(t@.take(i + 1).drop_last() =~= t@.take(i as int));
        if crate::numeric::is_digit_char(c) || c == '.' || c == '-' {
            push_char(&mut r, c);
        }
        i = i + 1;
    }
    assert(t@.take(n as int) =~= t@);
    Some(r)
}

/// The dimension kind that the low four bits of DIMENSION group 70 give;
/// the ordinate and other kinds count as linear.
pub open spec fn dim_kind_of(k: u8) -> DimensionKind {
    if k == 1 {
        DimensionKind::Aligned
    } else if k == 2 {
        DimensionKind::Angular
    } else if k == 3 {
        DimensionKind::Diameter
    } else if k == 4 {
        DimensionKind::Radius
    } else {
        DimensionKind::Linear
    }
}

pub fn dim_kind_from_raw(raw: DimensionKindRaw) -> (k: DimensionKind)
    ensures
        k == dim_kind_of((raw.0 % 16) as u8),
{
    match raw.primary_kind() {
        0 => DimensionKind::Linear,
        1 => DimensionKind::Aligned,
        2 => DimensionKind::Angular,
        3 => DimensionKind::Diameter,
        4 => DimensionKind::Radius,
        _ => DimensionKind::Linear,
    }
}

#[derive(Debug, Clone, Copy, PartialEq, Eq, Structural)]
pub enum WallStyle {
    ParallelLinePair,
    PolylineOutline,
    HatchBoundary,
    Unknown,
}

#[derive(Debug, Clone, Copy, PartialEq, Eq, Structural)]
pub enum LayerNamingConvention {
    English,
    Korean,
    Mixed,
    Unknown,
}

/// The wall-drawing style and layer-naming convention of a drawing.
#[derive(Debug, Clone)]
pub struct ConventionProbe {
    pub wall_style: WallStyle,
    pub layer_naming: LayerNamingConvention,
}

/// Detects the drawing conventions of `entities`. No detection is
/// implemented yet: the answer is always unknown.
pub fn probe(entities: &[Entity]) -> (p: ConventionProbe)
    ensures
        p.wall_style == WallStyle::Unknown,
        p.layer_naming == LayerNamingConvention::Unknown,
{
    ConventionProbe { wall_style: WallStyle::Unknown, layer_naming: LayerNamingConvention::Unknown }
}

/// The layer that synthesis draws a wall on: the wall's own, unless it has
/// none or is the default layer `0`, where `fallback` is taken.
pub open spec fn synth_wall_layer(layer: Seq<char>, fallback: Seq<char>) -> Seq<char> {
    if layer.len() == 0 || layer == "0"@ {
        fallback
    } else {
        layer
    }
}

/// The layer that synthesis draws a wall on.
pub fn wall_layer<'a>(layer: &'a str, fallback: &'a str) -> (r: &'a str)
    ensures
        r@ == synth_wall_layer(layer@, fallback@),
{
    if layer.unicode_len() == 0 || text_eq(layer, "0") {
        fallback
    } else {
        layer
    }
}

/// Whether a text on `layer` can label the room it lies in.
pub fn is_room_label_layer(layer: &str) -> (b: bool)
    ensures
        b == (layer@ == "TEXT"@ || layer@ == "TEXTS"@ || layer@ == "ROOMS"@),
{
    text_eq(layer, "TEXT") || text_eq(layer, "TEXTS") || text_eq(layer, "ROOMS")
}

proof fn lemma_word_fits(s: Seq<char>, w: Seq<char>, f: spec_fn(char) -> char)
    requires
        has_word(s, w, f),
    ensures
        s.len() >= w.len(),
{
    let i = choose|i: int| word_at(s, w, i, f);
}

/// A wall whose layer names its kind keeps that kind through synthesis:
/// synthesis draws it on its own layer, and the layer's hint decides the
/// kind whatever the wall's thickness.
pub proof fn lemma_layer_hint_survives_synthesis(layer: Seq<char>, fallback: Seq<char>, band: ThicknessBand)
    requires
        wall_hint(layer) is Some,
    ensures
        synth_wall_layer(layer, fallback) == layer,
        wall_kind(synth_wall_layer(layer, fallback), band) == wall_hint(layer)->0,
{
    reveal_strlit("extr");
    reveal_strlit("intr");
    reveal_strlit("part");
    reveal_strlit("외벽");
    reveal_strlit("내벽");
    reveal_strlit("파티션");
    reveal_strlit("0");
    if has_word(layer, "extr"@, fold_by(1)) {
        lemma_word_fits(layer, "extr"@, fold_by(1));
    } else if has_word(layer, "외벽"@, fold_by(0)) {
        lemma_word_fits(layer, "외벽"@, fold_by(0));
    } else if has_word(layer, "intr"@, fold_by(1)) {
        lemma_word_fits(layer, "intr"@, fold_by(1));
    } else if has_word(layer, "내벽"@, fold_by(0)) {
        lemma_word_fits(layer, "내벽"@, fold_by(0));
    } else if has_word(layer, "part"@, fold_by(1)) {
        lemma_word_fits(layer, "part"@, fold_by(1));
    } else {
        lemma_word_fits(layer, "파티션"@, fold_by(0));
    }
    assert(layer.len() >= 2);
    assert(layer != "0"@);
}

/// `s` with its ASCII capitals made small.
pub open spec fn ascii_lower(s: Seq<char>) -> Seq<char> {
    s.map_values(|c: char| fold_lower(c))
}

/// `s` raised to upper case: ASCII small letters and the dotless `ı`.
pub open spec fn ascii_upper(s: Seq<char>) -> Seq<char> {
    s.map_values(|c: char| fold_upper(c))
}

/// `w` occurs in `t` as a run of consecutive characters.
pub open spec fn contains_text(t: Seq<char>, w: Seq<char>) -> bool {
    exists|i: int| 0 <= i && i + w.len() <= t.len() && #[trigger] t.subrange(i, i + w.len()) == w
}

/// `t` begins with `w`.
pub open spec fn begins_with(t: Seq<char>, w: Seq<char>) -> bool {
    w.len() <= t.len() && t.subrange(0, w.len() as int) == w
}

proof fn lemma_word_at_mapped(s: Seq<char>, w: Seq<char>, i: int, f: spec_fn(char) -> char)
    requires
        0 <= i && i + w.len() <= s.len(),
    ensures
        word_at(s, w, i, f) == (s.map_values(f).subrange(i, i + w.len()) == w),
{
    let t = s.map_values(f).subrange(i, i + w.len());
    if word_at(s, w, i, f) {
        assert forall|k: int| 0 <= k < w.len() implies t[k] == w[k] by {
            assert(f(s[i + k]) == w[k]);
            assert(s.map_values(f)[i + k] == f(s[i + k]));
        }
        assert(t =~= w);
    }
    if t == w {
        assert forall|k: int| 0 <= k < w.len() implies f(#[trigger] s[i + k]) == w[k] by {
            assert(t[k] == w[k]);
        }
    }
}

/// A word stands in `s` with each character folded by `f` just when it
/// occurs in `s` mapped by `f`.
proof fn lemma_has_word_mapped(s: Seq<char>, w: Seq<char>, f: spec_fn(char) -> char)
    ensures
        has_word(s, w, f) == contains_text(s.map_values(f), w),
{
    let t = s.map_values(f);
    if has_word(s, w, f) {
        let i = choose|i: int| word_at(s, w, i, f);
        lemma_word_at_mapped(s, w, i, f);
        assert(t.subrange(i, i + w.len()) == w);
    }
    if contains_text(t, w) {
        let i = choose|i: int|
            0 <= i && i + w.len() <= t.len() && #[trigger] t.subrange(i, i + w.len()) == w;
        lemma_word_at_mapped(s, w, i, f);
        assert(word_at(s, w, i, f));
    }
}

proof fn lemma_folds(s: Seq<char>)
    ensures
        s.map_values(fold_by(0)) == s,
        s.map_values(fold_by(1)) == ascii_lower(s),
        s.map_values(fold_by(2)) == ascii_upper(s),
{
    assert(s.map_values(fold_by(0)) =~= s);
    assert(s.map_values(fold_by(1)) =~= ascii_lower(s));
    assert(s.map_values(fold_by(2)) =~= ascii_upper(s));
}

/// The kind a wall's layer hints at, read off the layer name in small
/// letters: it names exterior if it contains `extr` (or the layer
/// contains `외벽`), else interior if it contains `intr` (or `내벽`), else
/// partition if it contains `part` (or `파티션`), and otherwise nothing.
/// So `A-INTR-WALL`, `a-intr-wall` and `A-Intr-Wall` all hint at an
/// interior wall. The wall's kind is that hint if there is one, else the
/// thickness band's.
pub proof fn lemma_wall_hint_reads_lowercase(layer: Seq<char>, band: ThicknessBand)
    ensures
        ({
            let l = ascii_lower(layer);
            let hint = if contains_text(l, "extr"@) || contains_text(layer, "외벽"@) {
                Some(WallKind::Exterior)
            } else if contains_text(l, "intr"@) || contains_text(layer, "내벽"@) {
                Some(WallKind::Interior)
            } else if contains_text(l, "part"@) || contains_text(layer, "파티션"@) {
                Some(WallKind::Partition)
            } else {
                None
            };
            &&& wall_hint(layer) == hint
            &&& wall_kind(layer, band) == match hint {
                Some(k) => k,
                None => match band {
                    ThicknessBand::Exterior => WallKind::Exterior,
                    ThicknessBand::Interior => WallKind::Interior,
                    ThicknessBand::Thin => WallKind::Partition,
                },
            }
        }),
{
    lemma_folds(layer);
    lemma_has_word_mapped(layer, "extr"@, fold_by(1));
    lemma_has_word_mapped(layer, "intr"@, fold_by(1));
    lemma_has_word_mapped(layer, "part"@, fold_by(1));
    lemma_has_word_mapped(layer, "외벽"@, fold_by(0));
    lemma_has_word_mapped(layer, "내벽"@, fold_by(0));
    lemma_has_word_mapped(layer, "파티션"@, fold_by(0));
}

/// A word without ASCII letters is found in a text lowered just where it
/// is found in the text itself.
proof fn lemma_contains_lowered(s: Seq<char>, w: Seq<char>)
    requires
        forall|k: int|
            0 <= k < w.len() ==> !('a' <= #[trigger] w[k] && w[k] <= 'z') && !('A' <= w[k]
                && w[k] <= 'Z'),
    ensures
        contains_text(ascii_lower(s), w) == contains_text(s, w),
{
    let l = ascii_lower(s);
    if contains_text(l, w) {
        let i = choose|i: int|
            0 <= i && i + w.len() <= l.len() && #[trigger] l.subrange(i, i + w.len()) == w;
        assert forall|k: int| 0 <= k < w.len() implies s[i + k] == w[k] by {
            assert(l.subrange(i, i + w.len())[k] == w[k]);
            assert(l[i + k] == fold_lower(s[i + k]));
        }
        assert(s.subrange(i, i + w.len()) =~= w);
    }
    if contains_text(s, w) {
        let i = choose|i: int|
            0 <= i && i + w.len() <= s.len() && #[trigger] s.subrange(i, i + w.len()) == w;
        assert forall|k: int| 0 <= k < w.len() implies l[i + k] == w[k] by {
            assert(s.subrange(i, i + w.len())[k] == w[k]);
            assert(w[k] == s[i + k]);
        }
        assert(l.subrange(i, i + w.len()) =~= w);
    }
}

proof fn lemma_lower_twice(s: Seq<char>)
    ensures
        ascii_lower(ascii_lower(s)) == ascii_lower(s),
{
    assert(ascii_lower(ascii_lower(s)) =~= ascii_lower(s));
}

/// A layer's hint does not depend on the case of its letters: the layer
/// in small letters hints at the same kind.
pub proof fn lemma_wall_hint_ignores_case(layer: Seq<char>)
    ensures
        wall_hint(ascii_lower(layer)) == wall_hint(layer),
{
    let l = ascii_lower(layer);
    lemma_wall_hint_reads_lowercase(layer, ThicknessBand::Thin);
    lemma_wall_hint_reads_lowercase(l, ThicknessBand::Thin);
    lemma_lower_twice(layer);
    reveal_strlit("외벽");
    reveal_strlit("내벽");
    reveal_strlit("파티션");
    lemma_contains_lowered(layer, "외벽"@);
    lemma_contains_lowered(layer, "내벽"@);
    lemma_contains_lowered(layer, "파티션"@);
}

/// The opening kind of an INSERT, read off its block name in capitals: a
/// door if it begins with `DOOR` or contains `DOOR_`, else a window if it
/// begins with `WINDOW` or `WIN_` or contains `WINDOW_`; failing both, a
/// door if the INSERT is on a door layer, else a window if on a window
/// layer, else nothing. So `A-Window_900` and `a-window_900` are windows.
pub proof fn lemma_block_kind_reads_uppercase(
    name: Seq<char>,
    layer: Seq<char>,
    door_layers: Seq<Seq<char>>,
    window_layers: Seq<Seq<char>>,
)
    ensures
        ({
            let u = ascii_upper(name);
            block_kind(name, layer, door_layers, window_layers) == if begins_with(u, "DOOR"@)
                || contains_text(u, "DOOR_"@) {
                Some(OpeningKind::Door)
            } else if begins_with(u, "WINDOW"@) || begins_with(u, "WIN_"@) || contains_text(
                u,
                "WINDOW_"@,
            ) {
                Some(OpeningKind::Window)
            } else if door_layers.contains(layer) {
                Some(OpeningKind::Door)
            } else if window_layers.contains(layer) {
                Some(OpeningKind::Window)
            } else {
                None
            }
        }),
{
    lemma_folds(name);
    let u = ascii_upper(name);
    lemma_has_word_mapped(name, "DOOR_"@, fold_by(2));
    lemma_has_word_mapped(name, "WINDOW_"@, fold_by(2));
    assert forall|w: Seq<char>| #![trigger starts_upper(name, w)] starts_upper(name, w)
        == begins_with(u, w) by {
        if w.len() <= name.len() {
            lemma_word_at_mapped(name, w, 0, fold_by(2));
        }
    }
    assert(starts_upper(name, "DOOR"@) == begins_with(u, "DOOR"@));
    assert(starts_upper(name, "WINDOW"@) == begins_with(u, "WINDOW"@));
    assert(starts_upper(name, "WIN_"@) == begins_with(u, "WIN_"@));
    assert(names_contain(door_layers, layer) == door_layers.contains(layer));
    assert(names_contain(window_layers, layer) == window_layers.contains(layer));
}

proof fn lemma_upper_twice(s: Seq<char>)
    ensures
        ascii_upper(ascii_upper(s)) == ascii_upper(s),
{
    assert(ascii_upper(ascii_upper(s)) =~= ascii_upper(s));
}

/// A block name's kind does not depend on the case of its letters: the
/// name in capitals is classified the same.
pub proof fn lemma_block_kind_ignores_case(
    name: Seq<char>,
    layer: Seq<char>,
    door_layers: Seq<Seq<char>>,
    window_layers: Seq<Seq<char>>,
)
    ensures
        block_kind(ascii_upper(name), layer, door_layers, window_layers) == block_kind(
            name,
            layer,
            door_layers,
            window_layers,
        ),
{
    lemma_block_kind_reads_uppercase(name, layer, door_layers, window_layers);
    lemma_block_kind_reads_uppercase(ascii_upper(name), layer, door_layers, window_layers);
    lemma_upper_twice(name);
}

} // verus!
