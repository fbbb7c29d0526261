//! Font descriptors, glyph cache keys, and the pixel and character rules of the
//! font system.

use vstd::prelude::*;
use vstd::string::StringExecFns;
use crate::text::{ascii_lower, chars_of, eq_ignore_ascii_case, same_ignoring_ascii_case, string_views};

verus! {

#[derive(Debug, Clone, PartialEq, Eq)]
pub struct FontDescriptor {
    pub family: String,
    pub source: FontSource,
}

/// Where a face came from; a file is named by its path.
#[derive(Debug, Clone, PartialEq, Eq, Hash)]
pub enum FontSource {
    File(String),
    Memory,
    Unresolved,
}

#[derive(Debug, Clone, PartialEq, Eq)]
pub struct FontFallbackChain {
    pub primary: FontDescriptor,
    pub fallbacks: Vec<FontDescriptor>,
}

/// Identifies one rasterized glyph: face, glyph, size in thousandths of a point, style.
#[derive(Debug, Clone, Copy, PartialEq, Eq, Structural, Hash)]
pub struct GlyphCacheKey {
    pub font_id: u64,
    pub glyph_id: u16,
    pub size_millipoints: u32,
    pub bold: bool,
    pub italic: bool,
}

#[derive(Debug, Clone, Copy, PartialEq, Eq, Structural)]
pub enum GlyphBitmapFormat {
    Alpha,
    Rgba,
}

#[derive(Debug, Clone, PartialEq, Eq)]
pub struct FontDiagnostic {
    pub family: String,
    pub role: &'static str,
    pub resolved: bool,
    pub source: FontSource,
}

#[derive(Debug, Clone, PartialEq, Eq)]
pub enum FontError {
    FontNotFound { requested: Vec<String> },
    FontLoadFailed { family: String, reason: String },
}

/// A loaded face as the font system's rules see it; the face data itself stays
/// with the loader.
pub struct LoadedFont {
    id: u64,
    family: String,
    face_index: u32,
    source: FontSource,
    bold: bool,
    italic: bool,
}

/// What `DefaultHasher::new()` gives after hashing a face's family, face index,
/// source, bold flag and italic flag, in that order.
/// The value is stable within one build for one target only: `DefaultHasher`'s
/// algorithm may change between Rust releases, and the length prefix it hashes
/// depends on the width of `usize`.
pub uninterp spec fn face_digest(family: Seq<char>, face_index: u32, source: FontSource, bold: bool, italic: bool) -> u64;

/// `DefaultHasher::new()` fed the family, face index, source, bold flag and
/// italic flag through `Hash`, then `finish`.
/// The value is stable within one build for one target only: `DefaultHasher`'s
/// algorithm may change between Rust releases, and the length prefix it hashes
/// depends on the width of `usize`.
#[verifier::external_body]
fn face_id(family: &str, face_index: u32, source: &FontSource, bold: bool, italic: bool) -> (r: u64)
    ensures
        r == face_digest(family@, face_index, *source, bold, italic),
{
    let mut hasher = std::collections::hash_map::DefaultHasher::new();
    std::hash::Hash::hash(family, &mut hasher);
    std::hash::Hash::hash(&face_index, &mut hasher);
    std::hash::Hash::hash(source, &mut hasher);
    std::hash::Hash::hash(&bold, &mut hasher);
    std::hash::Hash::hash(&italic, &mut hasher);
    std::hash::Hasher::finish(&hasher)
}

impl LoadedFont {
    /// A face's id: the digest of its family, face index, source and style; the
    /// face bytes do not enter it.
    pub closed spec fn id_spec(&self) -> u64 {
        face_digest(self.family@, self.face_index, self.source, self.bold, self.italic)
    }

    #[verifier::type_invariant]
    spec fn id_is_digest(self) -> bool {
        self.id == self.id_spec()
    }

    pub closed spec fn family_spec(&self) -> Seq<char> {
        self.family@
    }

    pub closed spec fn face_index_spec(&self) -> u32 {
        self.face_index
    }

    pub closed spec fn source_spec(&self) -> FontSource {
        self.source
    }

    pub closed spec fn bold_spec(&self) -> bool {
        self.bold
    }

    pub closed spec fn italic_spec(&self) -> bool {
        self.italic
    }

    /// A face record, with its id derived from what identifies the face.
    pub fn new(family: String, face_index: u32, source: FontSource, bold: bool, italic: bool) -> (r: LoadedFont)
        ensures
            r.id_spec() == face_digest(family@, face_index, source, bold, italic),
            r.family_spec() == family@,
            r.face_index_spec() == face_index,
            r.source_spec() == source,
            r.bold_spec() == bold,
            r.italic_spec() == italic,
    {
        let id = face_id(family.as_str(), face_index, &source, bold, italic);
        LoadedFont { id, family, face_index, source, bold, italic }
    }

    /// Two faces with the same family, face index, source and style have the same id.
    pub proof fn lemma_id_follows_attributes(a: &LoadedFont, b: &LoadedFont)
        requires
            a.family_spec() == b.family_spec(),
            a.face_index_spec() == b.face_index_spec(),
            a.source_spec() == b.source_spec(),
            a.bold_spec() == b.bold_spec(),
            a.italic_spec() == b.italic_spec(),
        ensures
            a.id_spec() == b.id_spec(),
    {
    }

    pub fn id(&self) -> (r: u64)
        ensures
            r == self.id_spec(),
    {
        proof {
            use_type_invariant(self);
        }
        self.id
    }

    pub fn family(&self) -> (r: &str)
        ensures
            r@ == self.family_spec(),
    {
        self.family.as_str()
    }

    pub fn source(&self) -> (r: &FontSource)
        ensures
            *r == self.source_spec(),
    {
        &self.source
    }

    pub fn face_index(&self) -> (r: u32)
        ensures
            r == self.face_index_spec(),
    {
        self.face_index
    }

    pub fn is_bold(&self) -> (r: bool)
        ensures
            r == self.bold_spec(),
    {
        self.bold
    }

    pub fn is_italic(&self) -> (r: bool)
        ensures
            r == self.italic_spec(),
    {
        self.italic
    }
}

/// Joiners, variation selectors, and the supplementary variation selectors.
pub open spec fn is_default_ignorable_spec(ch: char) -> bool {
    let v = ch as u32;
    v == 0x200c || v == 0x200d || v == 0xfe0e || v == 0xfe0f || (0xe0100 <= v && v <= 0xe01ef)
}

/// Whether a character is invisible formatting that any face may skip.
pub fn is_default_ignorable(ch: char) -> (r: bool)
    ensures
        r == is_default_ignorable_spec(ch),
{
    let v = ch as u32;
    v == 0x200c || v == 0x200d || v == 0xfe0e || v == 0xfe0f || (0xe0100 <= v && v <= 0xe01ef)
}

/// The only character of a one-character text, unless it is ignorable.
pub fn single_scalar(text: &str) -> (r: Option<char>)
    ensures
        r == (if text@.len() == 1 && !is_default_ignorable_spec(text@[0]) {
            Some(text@[0])
        } else {
            None
        }),
{
    let chars = chars_of(text);
    if chars.len() == 1 && !is_default_ignorable(chars[0]) {
        Some(chars[0])
    } else {
        None
    }
}

/// One channel of a premultiplied pixel converted to straight alpha.
pub open spec fn unpremultiply_channel(channel: u8, alpha: u8) -> u8 {
    let v = (channel as int * 255) / (alpha as int);
    if v > 255 {
        255u8
    } else {
        v as u8
    }
}

/// Straight-alpha pixels: in every whole RGBA pixel whose alpha is neither 0 nor
/// 255, each color channel is divided by alpha and capped at 255; alpha and any
/// trailing partial pixel stay as they are.
pub open spec fn unpremultiplied(p: Seq<u8>) -> Seq<u8> {
    Seq::new(
        p.len(),
        |i: int|
            {
                let base = i - i % 4;
                let alpha = p[base + 3];
                if base + 4 > p.len() || i % 4 == 3 || alpha == 0 || alpha == 255 {
                    p[i]
                } else {
                    unpremultiply_channel(p[i], alpha)
                }
            },
    )
}

/// Converts premultiplied RGBA pixels to straight alpha in place.
pub fn unpremultiply_rgba(pixels: &mut Vec<u8>)
    ensures
        final(pixels)@ == unpremultiplied(old(pixels)@),
{
    let ghost before = pixels@;
    let n = pixels.len();
    let mut base: usize = 0;
    while n - base >= 4
        invariant
            n == before.len(),
            pixels@.len() == n,
            base % 4 == 0,
            base <= n,
            forall|j: int| 0 <= j < base ==> #[trigger] pixels@[j] == unpremultiplied(before)[j],
            forall|j: int| base <= j < n ==> #[trigger] pixels@[j] == before[j],
        decreases n - base,
    {
        let alpha = pixels[base + 3] as u16;
        if alpha != 0 && alpha != 255 {
            let mut k: usize = 0;
            while k < 3
                invariant
                    n == before.len(),
                    pixels@.len() == n,
                    base % 4 == 0,
                    base + 4 <= n,
                    k <= 3,
                    alpha == before[base + 3],
                    alpha != 0 && alpha != 255,
                    forall|j: int| 0 <= j < base ==> #[trigger] pixels@[j] == unpremultiplied(before)[j],
                    forall|j: int| base <= j < base + k ==> #[trigger] pixels@[j] == unpremultiply_channel(before[j], before[base + 3]),
                    forall|j: int| base + k <= j < n ==> #[trigger] pixels@[j] == before[j],
                decreases 3 - k,
            {
                let channel = pixels[base + k] as u16;
                let scaled = (channel * 255) / alpha;
                let value: u8 = if scaled > 255 { 255 } else { scaled as u8 };
                pixels.set(base + k, value);
                k = k + 1;
            }
        }
        proof {
            assert forall|j: int| base <= j < base + 4 implies #[trigger] pixels@[j] == unpremultiplied(before)[j] by {
                assert(j - j % 4 == base);
            }
        }
        base = base + 4;
    }
    proof {
        assert forall|j: int| base <= j < n implies #[trigger] pixels@[j] == unpremultiplied(before)[j] by {
            assert(j - j % 4 == base);
        }
    }
    assert(pixels@ =~= unpremultiplied(before));
}

/// The families tried after the configured ones, in order.
pub open spec fn builtin_families() -> Seq<Seq<char>> {
    seq![
        "Cascadia Mono"@,
        "Consolas"@,
        "Menlo"@,
        "DejaVu Sans Mono"@,
        "Segoe UI Emoji"@,
        "Apple Color Emoji"@,
        "Noto Color Emoji"@,
        "Noto Emoji"@,
        "Microsoft YaHei UI"@,
        "Yu Gothic UI"@,
        "Hiragino Sans"@,
        "Noto Sans Mono CJK JP"@,
        "Noto Sans CJK JP"@,
        "monospace"@,
    ]
}

/// The configured family (unless it is the generic `monospace`), the configured
/// fallbacks, then the built-in families.
pub open spec fn candidate_families(family: Seq<char>, fallbacks: Seq<Seq<char>>) -> Seq<Seq<char>> {
    (if same_ignoring_ascii_case(family, "monospace"@) { Seq::empty() } else { seq![family] }) + fallbacks
        + builtin_families()
}

/// The first spelling of each family, ignoring ASCII case, in order.
pub open spec fn first_spellings(s: Seq<Seq<char>>) -> Seq<Seq<char>>
    decreases s.len(),
{
    if s.len() == 0 {
        s
    } else {
        let kept = first_spellings(s.drop_last());
        if exists|j: int| 0 <= j < s.len() - 1 && same_ignoring_ascii_case(#[trigger] s[j], s.last()) {
            kept
        } else {
            kept.push(s.last())
        }
    }
}

/// The font families a configuration asks for, in the order they are tried,
/// each once whatever its ASCII case.
pub fn requested_families(family: &str, fallback_families: &Vec<String>) -> (r: Vec<String>)
    ensures
        string_views(r@) == first_spellings(candidate_families(family@, string_views(fallback_families@))),
{
    let mut candidates: Vec<String> = Vec::new();
    if !eq_ignore_ascii_case(family, "monospace") {
        candidates.push(family.to_owned());
    }
    let ghost head = string_views(candidates@);
    let mut i: usize = 0;
    while i < fallback_families.len()
        invariant
            i <= fallback_families@.len(),
            string_views(candidates@) == head + string_views(fallback_families@).take(i as int),
        decreases fallback_families@.len() - i,
    {
        let ghost before = candidates@;
        let name = fallback_families[i].clone();
        assert(name@ == fallback_families@[i as int]@);
        candidates.push(name);
        proof {
            assert(candidates@ == before.push(name));
            assert(string_views(candidates@) =~= string_views(before).push(fallback_families@[i as int]@));
            assert(string_views(fallback_families@).take(i + 1) =~= string_views(fallback_families@).take(i as int).push(
                fallback_families@[i as int]@,
            ));
            assert(string_views(candidates@) =~= head + string_views(fallback_families@).take(i + 1));
        }
        i = i + 1;
    }
    assert(string_views(fallback_families@).take(i as int) =~= string_views(fallback_families@));
    let ghost configured = string_views(candidates@);
    candidates.push(String::from_str("Cascadia Mono"));
    candidates.push(String::from_str("Consolas"));
    candidates.push(String::from_str("Menlo"));
    candidates.push(String::from_str("DejaVu Sans Mono"));
    candidates.push(String::from_str("Segoe UI Emoji"));
    candidates.push(String::from_str("Apple Color Emoji"));
    candidates.push(String::from_str("Noto Color Emoji"));
    candidates.push(String::from_str("Noto Emoji"));
    candidates.push(String::from_str("Microsoft YaHei UI"));
    candidates.push(String::from_str("Yu Gothic UI"));
    candidates.push(String::from_str("Hiragino Sans"));
    candidates.push(String::from_str("Noto Sans Mono CJK JP"));
    candidates.push(String::from_str("Noto Sans CJK JP"));
    candidates.push(String::from_str("monospace"));
    let ghost all = string_views(candidates@);
    assert(all =~= configured + builtin_families());
    assert(all =~= candidate_families(family@, string_views(fallback_families@)));
    let mut kept: Vec<String> = Vec::new();
    let mut k: usize = 0;
    while k < candidates.len()
        invariant
            all == string_views(candidates@),
            k <= candidates@.len(),
            string_views(kept@) == first_spellings(all.take(k as int)),
        decreases candidates@.len() - k,
    {
        let mut seen = false;
        let mut j: usize = 0;
        while j < k
            invariant
                all == string_views(candidates@),
                j <= k,
                k < candidates@.len(),
                seen == exists|m: int| 0 <= m < j && same_ignoring_ascii_case(#[trigger] all[m], all[k as int]),
            decreases k - j,
        {
            if eq_ignore_ascii_case(candidates[j].as_str(), candidates[k].as_str()) {
                seen = true;
            }
            proof {
                if seen && !(exists|m: int| 0 <= m < j && same_ignoring_ascii_case(#[trigger] all[m], all[k as int])) {
                    assert(same_ignoring_ascii_case(all[j as int], all[k as int]));
                }
            }
            j = j + 1;
        }
        proof {
            let p = all.take(k + 1);
            assert(p.drop_last() =~= all.take(k as int));
            assert(p.last() == all[k as int]);
            assert forall|m: int| 0 <= m < p.len() - 1 implies p[m] == all[m] by {}
            if seen {
                let m = choose|m: int| 0 <= m < k && same_ignoring_ascii_case(#[trigger] all[m], all[k as int]);
                assert(p[m] == all[m]);
            } else {
                assert(!(exists|m: int| 0 <= m < p.len() - 1 && same_ignoring_ascii_case(#[trigger] p[m], p.last())));
            }
        }
        if !seen {
            kept.push(candidates[k].clone());
            proof {
                assert(string_views(kept@) =~= first_spellings(all.take(k as int)).push(all[k as int]));
            }
        }
        k = k + 1;
    }
    assert(all.take(k as int) =~= all);
    kept
}

proof fn lemma_same_spelling_equivalence(a: Seq<char>, b: Seq<char>, c: Seq<char>)
    ensures
        same_ignoring_ascii_case(a, a),
        same_ignoring_ascii_case(a, b) ==> same_ignoring_ascii_case(b, a),
        same_ignoring_ascii_case(a, b) && same_ignoring_ascii_case(b, c) ==> same_ignoring_ascii_case(a, c),
{
    if same_ignoring_ascii_case(a, b) {
        assert forall|k: int| 0 <= k < b.len() implies ascii_lower(#[trigger] b[k]) == ascii_lower(a[k]) by {
            assert(ascii_lower(a[k]) == ascii_lower(b[k]));
        }
    }
    if same_ignoring_ascii_case(a, b) && same_ignoring_ascii_case(b, c) {
        assert forall|k: int| 0 <= k < a.len() implies ascii_lower(#[trigger] a[k]) == ascii_lower(c[k]) by {
            assert(ascii_lower(a[k]) == ascii_lower(b[k]));
            assert(ascii_lower(b[k]) == ascii_lower(c[k]));
        }
    }
}

/// Whether a list holds a spelling of `x`, ignoring ASCII case.
pub open spec fn spelled_in(r: Seq<Seq<char>>, x: Seq<char>) -> bool {
    exists|a: int| 0 <= a < r.len() && same_ignoring_ascii_case(#[trigger] r[a], x)
}

/// Each family is tried once: no two requested families are spelled alike
/// ignoring ASCII case, each is one of the candidates, and every candidate is
/// covered by a requested family spelled alike.
pub proof fn lemma_first_spellings_once(s: Seq<Seq<char>>)
    ensures
        forall|a: int, b: int| 0 <= a < b < first_spellings(s).len()
            ==> !same_ignoring_ascii_case(#[trigger] first_spellings(s)[a], #[trigger] first_spellings(s)[b]),
        forall|a: int| 0 <= a < first_spellings(s).len() ==> s.contains(#[trigger] first_spellings(s)[a]),
        forall|i: int| 0 <= i < s.len() ==> spelled_in(first_spellings(s), #[trigger] s[i]),
    decreases s.len(),
{
    if s.len() > 0 {
        let u = s.drop_last();
        let kept = first_spellings(u);
        let r = first_spellings(s);
        let last = s.last();
        lemma_first_spellings_once(u);
        let dup = exists|j: int| 0 <= j < s.len() - 1 && same_ignoring_ascii_case(#[trigger] s[j], last);
        assert forall|a: int| 0 <= a < r.len() implies s.contains(#[trigger] r[a]) by {
            if a < kept.len() {
                assert(r[a] == kept[a]);
                let m = choose|m: int| 0 <= m < u.len() && u[m] == kept[a];
                assert(s[m] == u[m]);
            } else {
                assert(r[a] == last);
                assert(s[s.len() - 1] == last);
            }
        }
        assert forall|a: int, b: int| 0 <= a < b < r.len()
            implies !same_ignoring_ascii_case(#[trigger] r[a], #[trigger] r[b]) by {
            if b < kept.len() {
                assert(r[a] == kept[a] && r[b] == kept[b]);
            } else {
                assert(!dup);
                assert(r[a] == kept[a] && r[b] == last);
                let m = choose|m: int| 0 <= m < u.len() && u[m] == kept[a];
                assert(s[m] == u[m]);
                if same_ignoring_ascii_case(r[a], r[b]) {
                    assert(same_ignoring_ascii_case(s[m], last));
                    assert(false);
                }
            }
        }
        assert forall|i: int| 0 <= i < s.len() implies spelled_in(r, #[trigger] s[i]) by {
            if i < s.len() - 1 {
                assert(u[i] == s[i]);
                assert(spelled_in(kept, u[i]));
                let a = choose|a: int| 0 <= a < kept.len() && same_ignoring_ascii_case(#[trigger] kept[a], u[i]);
                assert(r[a] == kept[a]);
            } else if dup {
                let j = choose|j: int| 0 <= j < s.len() - 1 && same_ignoring_ascii_case(#[trigger] s[j], last);
                assert(u[j] == s[j]);
                assert(spelled_in(kept, u[j]));
                let a = choose|a: int| 0 <= a < kept.len() && same_ignoring_ascii_case(#[trigger] kept[a], u[j]);
                assert(r[a] == kept[a]);
                lemma_same_spelling_equivalence(kept[a], s[j], last);
            } else {
                assert(r[r.len() - 1] == last);
                lemma_same_spelling_equivalence(last, last, last);
            }
        }
    }
}

} // verus!
