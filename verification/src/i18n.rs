//! The locales in which messages exist, and the choice of one from a
//! language tag, from a request, or from the environment.

use crate::text::{
    ascii_lower, chars_of, find_char, index_of, part_texts, split_chars, split_on, to_ascii_lower,
    trim_bounds, trimmed,
};
use vstd::prelude::*;

verus! {

/// The supported locale whose language a tag names. A tag names a language
/// by its first two letters, in either case; what follows them (a region,
/// an encoding) is ignored. Chinese is `zh-CN`; the other locales are the
/// two letters of their language.
pub open spec fn locale_of(tag: Seq<char>) -> Option<Seq<char>> {
    if tag.len() < 2 {
        None
    } else {
        let a = ascii_lower(tag[0]);
        let b = ascii_lower(tag[1]);
        if a == 'z' && b == 'h' {
            Some("zh-CN"@)
        } else if a == 'j' && b == 'a' {
            Some("ja"@)
        } else if a == 'd' && b == 'e' {
            Some("de"@)
        } else if a == 'f' && b == 'r' {
            Some("fr"@)
        } else if a == 'e' && b == 's' {
            Some("es"@)
        } else if a == 'p' && b == 't' {
            Some("pt"@)
        } else if a == 'r' && b == 'u' {
            Some("ru"@)
        } else if a == 'e' && b == 'n' {
            Some("en"@)
        } else {
            None
        }
    }
}

/// Returns the supported locale that the tag `chars[from..to]` names.
fn locale_of_chars(chars: &Vec<char>, from: usize, to: usize) -> (r: Option<String>)
    requires
        from <= to <= chars@.len(),
    ensures
        match r {
            Some(l) => locale_of(chars@.subrange(from as int, to as int)) == Some(l@),
            None => locale_of(chars@.subrange(from as int, to as int)) is None,
        },
{
    if to - from < 2 {
        return None;
    }
    let a = to_ascii_lower(chars[from]);
    let b = to_ascii_lower(chars[from + 1]);
    if a == 'z' && b == 'h' {
        Some("zh-CN".to_owned())
    } else if a == 'j' && b == 'a' {
        Some("ja".to_owned())
    } else if a == 'd' && b == 'e' {
        Some("de".to_owned())
    } else if a == 'f' && b == 'r' {
        Some("fr".to_owned())
    } else if a == 'e' && b == 's' {
        Some("es".to_owned())
    } else if a == 'p' && b == 't' {
        Some("pt".to_owned())
    } else if a == 'r' && b == 'u' {
        Some("ru".to_owned())
    } else if a == 'e' && b == 'n' {
        Some("en".to_owned())
    } else {
        None
    }
}

/// Normalises a language tag such as `en-US`, `de_DE.UTF-8` or `ja` to one
/// of the supported locales. Returns `None` if the language is not
/// supported.
pub fn normalize_locale(input: &str) -> (r: Option<String>)
    ensures
        match r {
            Some(l) => locale_of(input@) == Some(l@),
            None => locale_of(input@) is None,
        },
{
    let chars = chars_of(input);
    assert(chars@.subrange(0, chars@.len() as int) =~= input@);
    locale_of_chars(&chars, 0, chars.len())
}

/// The locale that one `key=value` pair of a query asks for: that of the
/// value, if the key is `lang`.
pub open spec fn pair_locale(pair: Seq<char>) -> Option<Seq<char>> {
    let eq = index_of(pair, '=', 0);
    if eq < pair.len() && pair.take(eq) == "lang"@ {
        locale_of(pair.skip(eq + 1))
    } else {
        None
    }
}

/// The locale that one entry of an `Accept-Language` header asks for: that
/// of its tag, which ends at the first `;` and is trimmed.
pub open spec fn entry_locale(entry: Seq<char>) -> Option<Seq<char>> {
    locale_of(trimmed(entry.take(index_of(entry, ';', 0))))
}

/// The first locale that one of the pairs of a query, from index `i` on,
/// asks for.
pub open spec fn first_pair_locale(parts: Seq<Seq<char>>, i: int) -> Option<Seq<char>>
    decreases parts.len() - i,
{
    if i < 0 || i >= parts.len() {
        None
    } else if pair_locale(parts[i]) is Some {
        pair_locale(parts[i])
    } else {
        first_pair_locale(parts, i + 1)
    }
}

/// The first locale that one of the entries of a header, from index `i`
/// on, asks for.
pub open spec fn first_entry_locale(parts: Seq<Seq<char>>, i: int) -> Option<Seq<char>>
    decreases parts.len() - i,
{
    if i < 0 || i >= parts.len() {
        None
    } else if entry_locale(parts[i]) is Some {
        entry_locale(parts[i])
    } else {
        first_entry_locale(parts, i + 1)
    }
}

/// The locale that a query string asks for: that of its first `lang`
/// parameter whose value names a supported language.
pub open spec fn query_locale(query: Seq<char>) -> Option<Seq<char>> {
    first_pair_locale(split_on(query, '&'), 0)
}

/// The locale that an `Accept-Language` header asks for: that of its first
/// entry whose tag names a supported language.
pub open spec fn header_locale(value: Seq<char>) -> Option<Seq<char>> {
    first_entry_locale(split_on(value, ','), 0)
}

/// Reads the locale that a query string asks for with `lang=..`.
pub fn locale_from_query(query: &str) -> (r: Option<String>)
    ensures
        match r {
            Some(l) => query_locale(query@) == Some(l@),
            None => query_locale(query@) is None,
        },
{
    let chars = chars_of(query);
    let pairs = split_chars(&chars, '&');
    let ghost parts = split_on(query@, '&');
    let mut i: usize = 0;
    while i < pairs.len()
        invariant
            i <= pairs.len(),
            parts == part_texts(pairs@),
            parts == split_on(query@, '&'),
            first_pair_locale(parts, 0) == first_pair_locale(parts, i as int),
        decreases pairs.len() - i,
    {
        let pair = &pairs[i];
        assert(parts[i as int] == pair@);
        let eq = find_char(pair, '=');
        if eq < pair.len() && eq == 4 && pair[0] == 'l' && pair[1] == 'a' && pair[2] == 'n'
            && pair[3] == 'g' {
            proof {
                reveal_strlit("lang");
                assert(pair@.take(4) =~= "lang"@);
                assert(pair@.subrange(eq + 1, pair@.len() as int) =~= pair@.skip(eq + 1));
            }
            match locale_of_chars(pair, eq + 1, pair.len()) {
                Some(l) => {
                    assert(pair_locale(parts[i as int]) == Some(l@));
                    return Some(l);
                },
                None => {
                    assert(pair_locale(parts[i as int]) is None);
                },
            }
        } else {
            proof {
                reveal_strlit("lang");
                if eq < pair@.len() && pair@.take(eq as int) == "lang"@ {
                    assert(pair@.take(eq as int).len() == 4);
                    assert(pair@.take(eq as int)[0] == 'l');
                    assert(pair@.take(eq as int)[1] == 'a');
                    assert(pair@.take(eq as int)[2] == 'n');
                    assert(pair@.take(eq as int)[3] == 'g');
                }
                assert(pair_locale(parts[i as int]) is None);
            }
        }
        i = i + 1;
    }
    None
}

/// Reads the locale that an `Accept-Language` header asks for.
pub fn locale_from_accept_language(value: &str) -> (r: Option<String>)
    ensures
        match r {
            Some(l) => header_locale(value@) == Some(l@),
            None => header_locale(value@) is None,
        },
{
    let chars = chars_of(value);
    let entries = split_chars(&chars, ',');
    let ghost parts = split_on(value@, ',');
    let mut i: usize = 0;
    while i < entries.len()
        invariant
            i <= entries.len(),
            parts == part_texts(entries@),
            parts == split_on(value@, ','),
            first_entry_locale(parts, 0) == first_entry_locale(parts, i as int),
        decreases entries.len() - i,
    {
        let entry = &entries[i];
        assert(parts[i as int] == entry@);
        let end = find_char(entry, ';');
        let (a, b) = trim_bounds(entry, 0, end);
        assert(entry@.subrange(0, end as int) =~= entry@.take(end as int));
        match locale_of_chars(entry, a, b) {
            Some(l) => {
                assert(entry_locale(parts[i as int]) == Some(l@));
                return Some(l);
            },
            None => {
                assert(entry_locale(parts[i as int]) is None);
            },
        }
        i = i + 1;
    }
    None
}

/// The locale of a request: what its query asks for, else what its
/// `Accept-Language` header asks for, else English.
pub open spec fn request_locale(query: Seq<char>, accept_language: Option<Seq<char>>) -> Seq<char> {
    match query_locale(query) {
        Some(l) => l,
        None => match accept_language {
            Some(v) => match header_locale(v) {
                Some(l) => l,
                None => "en"@,
            },
            None => "en"@,
        },
    }
}

/// Chooses the locale of a request from its query string and its
/// `Accept-Language` header.
pub fn extract_locale(query: &str, accept_language: Option<&str>) -> (r: String)
    ensures
        r@ == request_locale(
            query@,
            match accept_language {
                Some(v) => Some(v@),
                None => None,
            },
        ),
{
    match locale_from_query(query) {
        Some(l) => l,
        None => match accept_language {
            Some(v) => match locale_from_accept_language(v) {
                Some(l) => l,
                None => "en".to_owned(),
            },
            None => "en".to_owned(),
        },
    }
}

/// The locale of the process: that of the configured language if it is
/// supported, else that of the system if it is, else English.
pub open spec fn process_locale(configured: Option<Seq<char>>, system: Option<Seq<char>>) -> Seq<
    char,
> {
    let first = match configured {
        Some(c) => locale_of(c),
        None => None,
    };
    let second = match system {
        Some(s) => locale_of(s),
        None => None,
    };
    match first {
        Some(l) => l,
        None => match second {
            Some(l) => l,
            None => "en"@,
        },
    }
}

/// Chooses the locale of the process from the configured language and the
/// system's locale.
pub fn choose_locale(configured: Option<&str>, system: Option<&str>) -> (r: String)
    ensures
        r@ == process_locale(
            match configured {
                Some(v) => Some(v@),
                None => None,
            },
            match system {
                Some(v) => Some(v@),
                None => None,
            },
        ),
{
    let first = match configured {
        Some(c) => normalize_locale(c),
        None => None,
    };
    match first {
        Some(l) => l,
        None => {
            let second = match system {
                Some(s) => normalize_locale(s),
                None => None,
            };
            match second {
                Some(l) => l,
                None => "en".to_owned(),
            }
        },
    }
}

} // verus!
