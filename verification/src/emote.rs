//! The emote-identity resolver: maps an inline image reference (URL
//! plus optional alt text) to a textual emote token.
//!
//! A source URL carrying the unicode-origin marker resolves to the alt
//! text when one is given, else to the scalar sequence decoded from
//! the underscore-separated hex groups of its file stem. Any other
//! source resolves to `:_{alt}:` when alt text is given, else to
//! `:_{name}:` through a static mapping keyed by the asset id derived
//! from the URL; an id absent from the mapping is a resolution miss.

use vstd::prelude::*;
use crate::text::{
    after_last, after_last_char, chars_to_string, contains_seq, contains_str, first_index_char,
    first_index_of, strip_prefix_all, strip_prefix_all_str, trim_spec, trim_str,
};
use vstd::string::*;

verus! {

/// Hexadecimal digit, either case.
pub open spec fn is_hex_digit(c: char) -> bool {
    let u = c as u32;
    (48 <= u && u <= 57) || (97 <= u && u <= 102) || (65 <= u && u <= 70)
}

/// Numeric value of a hexadecimal digit.
pub open spec fn hex_val(c: char) -> nat {
    let u = c as u32;
    if 48 <= u && u <= 57 {
        (u - 48) as nat
    } else if 97 <= u && u <= 102 {
        (u - 87) as nat
    } else {
        (u - 55) as nat
    }
}

/// Every character of `s` is a hexadecimal digit.
pub open spec fn all_hex(s: Seq<char>) -> bool {
    forall|k: int| 0 <= k < s.len() ==> is_hex_digit(#[trigger] s[k])
}

/// Value of a hexadecimal digit string.
pub open spec fn hex_of(s: Seq<char>) -> nat
    decreases s.len(),
{
    if s.len() == 0 {
        0
    } else {
        hex_of(s.drop_last()) * 16 + hex_val(s.last())
    }
}

/// `u` is a Unicode scalar value.
pub open spec fn is_scalar_u32(u: u32) -> bool {
    u < 0xD800 || (0xDFFF < u && u <= 0x10FFFF)
}

/// Relies on `char::from_u32`: returns the character of a Unicode
/// scalar value, `None` on a surrogate or out-of-range value.
pub assume_specification[ char::from_u32 ](u: u32) -> (r: Option<char>)
    ensures
        r is Some <==> is_scalar_u32(u),
        r matches Some(c) ==> c as u32 == u,
;

/// The character a hex group decodes to: defined when the group is a
/// non-empty hex numeral denoting a Unicode scalar value.
pub open spec fn decode_group(g: Seq<char>) -> Option<char> {
    if g.len() > 0 && all_hex(g) && hex_of(g) <= 0xFFFF_FFFF && is_scalar_u32(hex_of(g) as u32) {
        Some((hex_of(g) as u32) as char)
    } else {
        None
    }
}

/// Decodes every group, or fails when any group fails.
pub open spec fn decode_groups(gs: Seq<Seq<char>>) -> Option<Seq<char>>
    decreases gs.len(),
{
    if gs.len() == 0 {
        Some(Seq::empty())
    } else {
        match (decode_group(gs[0]), decode_groups(gs.skip(1))) {
            (Some(c), Some(rest)) => Some(seq![c] + rest),
            _ => None,
        }
    }
}

/// `s` split on `c` into (possibly empty) segments.
pub open spec fn split_char(s: Seq<char>, c: char) -> Seq<Seq<char>>
    decreases s.len(),
{
    let i = first_index_of(s, c);
    if 0 <= i < s.len() {
        seq![s.take(i)] + split_char(s.skip(i + 1), c)
    } else {
        seq![s]
    }
}

/// Last value bound to `key`; later entries override earlier ones.
pub open spec fn spec_lookup(m: Seq<(String, String)>, key: Seq<char>) -> Option<Seq<char>>
    decreases m.len(),
{
    if m.len() == 0 {
        None
    } else if m.last().0@ == key {
        Some(m.last().1@)
    } else {
        spec_lookup(m.drop_last(), key)
    }
}

/// The file stem of the last path segment of `src`: after the last
/// `/`, before the first `.`.
pub open spec fn spec_stem(src: Seq<char>) -> Seq<char> {
    let fname = after_last(src, '/');
    fname.take(first_index_of(fname, '.'))
}

/// The asset id of a custom emote URL: the stem, truncated right
/// after the first `=` when one is present.
pub open spec fn spec_asset_id(src: Seq<char>) -> Seq<char> {
    let stem = spec_stem(src);
    let e = first_index_of(stem, '=');
    if e == stem.len() {
        stem
    } else {
        stem.take(e + 1)
    }
}

/// The unicode-origin marker.
pub open spec fn unicode_marker() -> Seq<char> {
    "emoji_u"@
}

/// The alt text counts only when present and non-blank.
pub open spec fn effective_alt(alt: Option<Seq<char>>) -> Option<Seq<char>> {
    match alt {
        Some(a) => if trim_spec(a).len() > 0 {
            Some(a)
        } else {
            None
        },
        None => None,
    }
}

/// The resolver's full decision algorithm over mathematical values.
pub open spec fn spec_resolve(
    m: Seq<(String, String)>,
    src: Seq<char>,
    alt: Option<Seq<char>>,
) -> Option<Seq<char>> {
    let alt_eff = effective_alt(alt);
    if contains_seq(src, unicode_marker()) {
        if alt_eff is Some {
            alt_eff
        } else {
            let code = strip_prefix_all(spec_stem(src), unicode_marker());
            decode_groups(split_char(code, '_'))
        }
    } else {
        match alt_eff {
            Some(a) => Some(":_"@ + a + ":"@),
            None => match spec_lookup(m, spec_asset_id(src)) {
                Some(name) => Some(":_"@ + name + ":"@),
                None => None,
            },
        }
    }
}

/// View of an optional string argument.
pub open spec fn opt_str_view(alt: Option<&str>) -> Option<Seq<char>> {
    match alt {
        Some(a) => Some(a@),
        None => None,
    }
}

/// Decodes one hex group, matching [`decode_group`].
pub fn decode_one_group(g: &str) -> (r: Option<char>)
    ensures
        r == decode_group(g@),
{
    let n = g.unicode_len();
    if n == 0 {
        return None;
    }
    let mut acc: u64 = 0;
    let mut i: usize = 0;
    while i < n
        invariant
            0 <= i <= n == g@.len(),
            all_hex(g@.take(i as int)),
            hex_of(g@.take(i as int)) <= 0xFFFF_FFFF ==> acc == hex_of(g@.take(i as int)),
            hex_of(g@.take(i as int)) > 0xFFFF_FFFF ==> acc == 0x1_0000_0000u64,
            acc <= 0x1_0000_0000u64,
        decreases n - i,
    {
        proof {
            let pre = g@.take(i as int);
            let nxt = g@.take(i + 1);
            assert(nxt.drop_last() =~= pre);
            assert(nxt.last() == g@[i as int]);
        }
        let c = g.get_char(i);
        let u = c as u32;
        let d: u32 = if 48 <= u && u <= 57 {
            u - 48
        } else if 97 <= u && u <= 102 {
            u - 87
        } else if 65 <= u && u <= 70 {
            u - 55
        } else {
            proof {
                assert(!all_hex(g@));
            }
            return None;
        };
        let next = acc * 16 + (d as u64);
        acc = if next > 0xFFFF_FFFFu64 {
            0x1_0000_0000u64
        } else {
            next
        };
        i = i + 1;
    }
    proof {
        assert(g@.take(n as int) =~= g@);
    }
    if acc > 0xFFFF_FFFFu64 {
        return None;
    }
    match char::from_u32(acc as u32) {
        Some(c) => {
            proof {
                vstd::utf8::char_u32_cast(c, acc as u32);
            }
            Some(c)
        },
        None => None,
    }
}

/// Decodes all underscore-separated hex groups of `code`, matching
/// [`decode_groups`] over [`split_char`].
fn decode_code(code: &str) -> (r: Option<String>)
    ensures
        r is Some <==> decode_groups(split_char(code@, '_')) is Some,
        r matches Some(v) ==> decode_groups(split_char(code@, '_')) == Some(v@),
{
    let mut out: Vec<char> = Vec::new();
    let mut cur: &str = code;
    loop
        invariant
            match decode_groups(split_char(cur@, '_')) {
                Some(rest) => decode_groups(split_char(code@, '_')) == Some(out@ + rest),
                None => decode_groups(split_char(code@, '_')) is None,
            },
        decreases cur@.len(),
    {
        let n = cur.unicode_len();
        let i = first_index_char(cur, '_');
        if i == n {
            // last group
            proof {
                assert(split_char(cur@, '_') =~= seq![cur@]);
            }
            match decode_one_group(cur) {
                Some(c) => {
                    out.push(c);
                    proof {
                        reveal_with_fuel(decode_groups, 3);
                        let gs = split_char(cur@, '_');
                        assert(gs.skip(1) =~= Seq::<Seq<char>>::empty());
                        assert(seq![c] + Seq::<char>::empty() =~= seq![c]);
                        assert(decode_groups(gs) == Some(seq![c]));
                        let whole = decode_groups(split_char(code@, '_'));
                        assert(whole matches Some(w) ==> w == out@.drop_last() + (seq![c]
                            + Seq::<char>::empty()));
                        assert(whole matches Some(w) ==> out@ =~= w);
                    }
                    return Some(chars_to_string(&out));
                },
                None => {
                    proof {
                        let gs = split_char(cur@, '_');
                        assert(decode_groups(gs) is None);
                    }
                    return None;
                },
            }
        }
        proof {
            assert(0 <= i < cur@.len());
        }
        let g = cur.substring_char(0, i);
        let rest = cur.substring_char(i + 1, n);
        proof {
            assert(g@ =~= cur@.take(i as int));
            assert(rest@ =~= cur@.skip(i + 1));
            assert(split_char(cur@, '_') == seq![cur@.take(i as int)] + split_char(
                cur@.skip(i + 1),
                '_',
            ));
            assert(split_char(cur@, '_')[0] == cur@.take(i as int));
            assert(split_char(cur@, '_').skip(1) =~= split_char(cur@.skip(i + 1), '_'));
        }
        match decode_one_group(g) {
            Some(c) => {
                out.push(c);
                proof {
                    match decode_groups(split_char(rest@, '_')) {
                        Some(r2) => {
                            assert(decode_groups(split_char(cur@, '_')) == Some(
                                seq![c] + r2,
                            ));
                            assert(out@ + r2 =~= out@.drop_last() + (seq![c] + r2));
                        },
                        None => {},
                    }
                }
                cur = rest;
            },
            None => {
                return None;
            },
        }
    }
}

/// The emote resolver: a static mapping from asset ids to emote
/// names, consulted for custom emotes without alt text.
#[derive(Debug)]
pub struct EmoteResolver {
    mapping: Vec<(String, String)>,
}

impl View for EmoteResolver {
    type V = Seq<(String, String)>;

    closed spec fn view(&self) -> Seq<(String, String)> {
        self.mapping@
    }
}

impl EmoteResolver {
    /// Builds a resolver over the given mapping entries; a later entry
    /// overrides an earlier one with the same key.
    pub fn with_mapping(mapping: Vec<(String, String)>) -> (r: EmoteResolver)
        ensures
            r@ == mapping@,
    {
        EmoteResolver { mapping }
    }

    /// Looks a key up in the mapping, matching [`spec_lookup`].
    pub fn lookup(&self, key: &str) -> (r: Option<String>)
        ensures
            r is Some <==> spec_lookup(self@, key@) is Some,
            r matches Some(v) ==> spec_lookup(self@, key@) == Some(v@),
    {
        let n = self.mapping.len();
        proof {
            assert(self@.take(n as int) =~= self@);
        }
        let mut j: usize = n;
        while j > 0
            invariant
                0 <= j <= n == self@.len(),
                spec_lookup(self@, key@) == spec_lookup(self@.take(j as int), key@),
            decreases j,
        {
            proof {
                let t = self@.take(j as int);
                assert(t.last() == self@[j - 1]);
                assert(t.drop_last() =~= self@.take(j - 1));
            }
            if crate::text::str_eq(self.mapping[j - 1].0.as_str(), key) {
                return Some(self.mapping[j - 1].1.clone());
            }
            j = j - 1;
        }
        proof {
            assert(self@.take(0) =~= Seq::<(String, String)>::empty());
        }
        None
    }

    /// Resolves an inline image to its emote token, matching
    /// [`spec_resolve`]; `None` is a resolution miss.
    pub fn resolve_emoji(&self, src: &str, alt: Option<&str>) -> (r: Option<String>)
        ensures
            r is Some <==> spec_resolve(self@, src@, opt_str_view(alt)) is Some,
            r matches Some(v) ==> spec_resolve(self@, src@, opt_str_view(alt)) == Some(v@),
    {
        let alt_eff: Option<&str> = match alt {
            Some(a) => {
                let t = trim_str(a);
                if t.as_str().unicode_len() > 0 {
                    Some(a)
                } else {
                    None
                }
            },
            None => None,
        };
        if contains_str(src, "emoji_u") {
            match alt_eff {
                Some(a) => Some(a.to_owned()),
                None => {
                    let fname = after_last_char(src, '/');
                    let di = first_index_char(fname, '.');
                    let stem = fname.substring_char(0, di);
                    proof {
                        assert(stem@ =~= spec_stem(src@));
                    }
                    let code = strip_prefix_all_str(stem, "emoji_u");
                    decode_code(code)
                },
            }
        } else {
            match alt_eff {
                Some(a) => {
                    let s = String::from_str(":_").concat(a).concat(":");
                    Some(s)
                },
                None => {
                    let fname = after_last_char(src, '/');
                    let di = first_index_char(fname, '.');
                    let stem = fname.substring_char(0, di);
                    proof {
                        assert(stem@ =~= spec_stem(src@));
                    }
                    let n = stem.unicode_len();
                    let e = first_index_char(stem, '=');
                    let id = if e == n {
                        stem
                    } else {
                        stem.substring_char(0, e + 1)
                    };
                    proof {
                        assert(id@ =~= spec_asset_id(src@));
                    }
                    match self.lookup(id) {
                        Some(name) => {
                            let s = String::from_str(":_").concat(name.as_str()).concat(":");
                            Some(s)
                        },
                        None => None,
                    }
                },
            }
        }
    }
}

} // verus!
