//! The basic emote resolver: an earlier, simpler decision algorithm
//! kept for callers that use alt text as-is.
//!
//! It differs from [`crate::emote::EmoteResolver::resolve_emoji`] in
//! two ways: alt text is taken even when blank, and the unicode
//! fallback decodes a single hex group taken from the text before the
//! first underscore of the whole source string.

use vstd::prelude::*;
use crate::emote::{
    decode_group, spec_asset_id, spec_lookup, unicode_marker, EmoteResolver,
};
use crate::text::{contains_seq, contains_str, first_index_char, first_index_of};
use vstd::string::*;

verus! {

/// The basic resolver's decision algorithm over mathematical values.
pub open spec fn spec_resolve_basic(
    m: Seq<(String, String)>,
    src: Seq<char>,
    alt: Option<Seq<char>>,
) -> Option<Seq<char>> {
    if contains_seq(src, unicode_marker()) {
        match alt {
            Some(a) => Some(a),
            None => match decode_group(src.take(first_index_of(src, '_'))) {
                Some(c) => Some(seq![c]),
                None => None,
            },
        }
    } else {
        match alt {
            Some(a) => Some(":_"@ + a + ":"@),
            None => match spec_lookup(m, spec_asset_id(src)) {
                Some(name) => Some(":_"@ + name + ":"@),
                None => None,
            },
        }
    }
}

/// Looks an asset id up in the resolver's mapping, the name behind a
/// `:_{name}:` token.
pub fn custom_emoji_name(resolver: &EmoteResolver, id: &str) -> (r: Option<String>)
    ensures
        r is Some <==> spec_lookup(resolver@, id@) is Some,
        r matches Some(v) ==> spec_lookup(resolver@, id@) == Some(v@),
{
    resolver.lookup(id)
}

/// Resolves an inline image with the basic algorithm, matching
/// [`spec_resolve_basic`]; `None` is a resolution miss.
pub fn resolve_emoji(resolver: &EmoteResolver, src: &str, alt: Option<&str>) -> (r: Option<
    String,
>)
    ensures
        r is Some <==> spec_resolve_basic(resolver@, src@, crate::emote::opt_str_view(alt))
            is Some,
        r matches Some(v) ==> spec_resolve_basic(resolver@, src@, crate::emote::opt_str_view(alt))
            == Some(v@),
{
    if contains_str(src, "emoji_u") {
        match alt {
            Some(a) => Some(a.to_owned()),
            None => {
                let i = first_index_char(src, '_');
                let code = src.substring_char(0, i);
                proof {
                    assert(code@ =~= src@.take(first_index_of(src@, '_')));
                }
                match crate::emote::decode_one_group(code) {
                    Some(c) => {
                        let mut v: Vec<char> = Vec::new();
                        v.push(c);
                        proof {
                            assert(v@ =~= seq![c]);
                        }
                        Some(crate::text::chars_to_string(&v))
                    },
                    None => None,
                }
            },
        }
    } else {
        match alt {
            Some(a) => {
                let s = String::from_str(":_").concat(a).concat(":");
                Some(s)
            },
            None => {
                let fname = crate::text::after_last_char(src, '/');
                let di = first_index_char(fname, '.');
                let stem = fname.substring_char(0, di);
                proof {
                    assert(stem@ =~= crate::emote::spec_stem(src@));
                }
                let n = stem.unicode_len();
                let e = first_index_char(stem, '=');
                let id = if e == n {
                    stem
                } else {
                    stem.substring_char(0, e + 1)
                };
                proof {
                    assert(id@ =~= spec_asset_id(src@));
                }
                match resolver.lookup(id) {
                    Some(name) => {
                        let s = String::from_str(":_").concat(name.as_str()).concat(":");
                        Some(s)
                    },
                    None => None,
                }
            },
        }
    }
}

} // verus!
