//! Checks on what the user typed before any of it reaches a command line.

use vstd::prelude::*;
use vstd::utf8::encode_utf8;
use crate::text::{
    is_white_space, lemma_blank_iff_all_white_space, unicode_alphanumeric, char_is_alphanumeric, decimal, decimal_string, is_alphanumeric, is_blank,
    matches_at, starts_with, trim_whitespace,
};

verus! {

/// The longest username accepted, in bytes.
pub const MAX_USERNAME_LEN: usize = 64;

/// The length of `s` in bytes once encoded in UTF-8, as `str::len` reports it.
pub open spec fn byte_len(s: Seq<char>) -> usize {
    encode_utf8(s).len() as usize
}

/// A character a username may hold: alphanumeric, `.`, `_`, `-`, or the
/// wildcard `?` that Sherlock expands.
pub open spec fn username_char_allowed(c: char) -> bool {
    is_alphanumeric(c) || c == '.' || c == '_' || c == '-' || c == '?'
}

/// A character a proxy URL may hold: alphanumeric or one of `.:/-_@[]`.
pub open spec fn proxy_char_allowed(c: char) -> bool {
    is_alphanumeric(c) || c == '.' || c == ':' || c == '/' || c == '-' || c == '_' || c
        == '@' || c == '[' || c == ']'
}

/// A character a site name may hold: alphanumeric, `.`, `-`, space or `_`.
pub open spec fn site_char_allowed(c: char) -> bool {
    is_alphanumeric(c) || c == '.' || c == '-' || c == ' ' || c == '_'
}

/// A character a POSIX shell gives a meaning to: command separators, pipes,
/// redirections, quotes, substitutions, escapes, the `*` glob, history
/// expansion and line breaks. (`?` is a glob too, and usernames keep it on
/// purpose: Sherlock expands it.)
pub open spec fn shell_special(c: char) -> bool {
    c == ';' || c == '&' || c == '|' || c == '$' || c == '`' || c == '<' || c == '>' || c == '('
        || c == ')' || c == '\'' || c == '"' || c == '\\' || c == '*' || c == '!' || c == '\n'
        || c == '\r'
}

/// No character of `s` is special to a shell.
pub open spec fn free_of_shell_specials(s: Seq<char>) -> bool {
    forall|i: int| 0 <= i < s.len() ==> !shell_special(#[trigger] s[i])
}

/// No character of `s` is a space or a tab.
pub open spec fn free_of_blanks(s: Seq<char>) -> bool {
    forall|i: int| 0 <= i < s.len() ==> #[trigger] s[i] != ' ' && s[i] != '\t'
}

pub open spec fn all_username_chars(s: Seq<char>) -> bool {
    forall|i: int| 0 <= i < s.len() ==> username_char_allowed(#[trigger] s[i])
}

pub open spec fn all_proxy_chars(s: Seq<char>) -> bool {
    forall|i: int| 0 <= i < s.len() ==> proxy_char_allowed(#[trigger] s[i])
}

pub open spec fn all_site_chars(s: Seq<char>) -> bool {
    forall|i: int| 0 <= i < s.len() ==> site_char_allowed(#[trigger] s[i])
}

/// The proxy schemes Sherlock is handed.
pub open spec fn has_proxy_scheme(s: Seq<char>) -> bool {
    starts_with(s, "http://"@) || starts_with(s, "https://"@) || starts_with(s, "socks4://"@)
        || starts_with(s, "socks5://"@)
}

/// Why `u` is refused as a username, or `None` when it is accepted.
pub open spec fn username_error(u: Seq<char>) -> Option<Seq<char>> {
    if is_blank(u) {
        Some("Username cannot be empty"@)
    } else if byte_len(u) > MAX_USERNAME_LEN {
        Some(
            "Username '"@ + u + "' is too long (max "@ + decimal(MAX_USERNAME_LEN as nat)
                + " characters)"@,
        )
    } else if !all_username_chars(u) {
        Some(
            "Invalid username '"@ + u
                + "': only alphanumeric, dots, underscores, hyphens and ? are allowed"@,
        )
    } else {
        None
    }
}

/// Why `p` is refused as a proxy URL, or `None` when it is accepted.
pub open spec fn proxy_error(p: Seq<char>) -> Option<Seq<char>> {
    if p.len() == 0 {
        None
    } else if !all_proxy_chars(p) {
        Some("Invalid proxy URL: contains forbidden characters"@)
    } else if !has_proxy_scheme(p) {
        Some("Invalid proxy URL: must start with http://, https://, socks4:// or socks5://"@)
    } else {
        None
    }
}

/// Why `s` is refused as a site name, or `None` when it is accepted.
pub open spec fn site_name_error(s: Seq<char>) -> Option<Seq<char>> {
    if s.len() == 0 {
        Some("Site name cannot be empty"@)
    } else if !all_site_chars(s) {
        Some(
            "Invalid site name '"@ + s
                + "': only alphanumeric, dots, hyphens, underscores and spaces are allowed"@,
        )
    } else {
        None
    }
}

/// The result a check returns for the refusal `e`.
pub open spec fn check_result(r: Result<(), String>, e: Option<Seq<char>>) -> bool {
    match r {
        Ok(_) => e is None,
        Err(m) => e == Some(m@),
    }
}

fn is_username_char(c: char) -> (r: bool)
    ensures
        r == username_char_allowed(c),
{
    char_is_alphanumeric(c) || c == '.' || c == '_' || c == '-' || c == '?'
}

fn is_proxy_char(c: char) -> (r: bool)
    ensures
        r == proxy_char_allowed(c),
{
    char_is_alphanumeric(c) || c == '.' || c == ':' || c == '/' || c == '-' || c == '_' || c
        == '@' || c == '[' || c == ']'
}

fn is_site_char(c: char) -> (r: bool)
    ensures
        r == site_char_allowed(c),
{
    char_is_alphanumeric(c) || c == '.' || c == '-' || c == ' ' || c == '_'
}

/// Accepts a non-blank username of at most 64 bytes made of alphanumeric
/// characters, `.`, `_`, `-` and `?`; otherwise says why not.
pub fn validate_username(username: &str) -> (r: Result<(), String>)
    ensures
        check_result(r, username_error(username@)),
        r is Ok ==> free_of_shell_specials(username@) && free_of_blanks(username@),
{
    let t = trim_whitespace(username);
    if t.as_str().is_empty() {
        return Err(String::from_str("Username cannot be empty"));
    }
    if username.len() > MAX_USERNAME_LEN {
        let mut m = String::from_str("Username '");
        m.append(username);
        m.append("' is too long (max ");
        let n = decimal_string(MAX_USERNAME_LEN as u64);
        m.append(n.as_str());
        m.append(" characters)");
        return Err(m);
    }
    let len = username.unicode_len();
    let mut i: usize = 0;
    while i < len
        invariant
            len == username@.len(),
            i <= len,
            !is_blank(username@),
            byte_len(username@) <= MAX_USERNAME_LEN,
            forall|j: int| 0 <= j < i ==> username_char_allowed(#[trigger] username@[j]),
            forall|j: int|
                0 <= j < i ==> !shell_special(#[trigger] username@[j]) && username@[j] != ' '
                    && username@[j] != '\t',
        decreases len - i,
    {
        if !is_username_char(username.get_char(i)) {
            assert(!all_username_chars(username@));
            let mut m = String::from_str("Invalid username '");
            m.append(username);
            m.append("': only alphanumeric, dots, underscores, hyphens and ? are allowed");
            return Err(m);
        }
        i = i + 1;
    }
    Ok(())
}

/// Accepts an empty proxy (none) or a URL made of alphanumeric characters and
/// `.:/-_@[]` that starts with `http://`, `https://`, `socks4://` or
/// `socks5://`; otherwise says why not.
pub fn validate_proxy(proxy: &str) -> (r: Result<(), String>)
    ensures
        check_result(r, proxy_error(proxy@)),
        r is Ok ==> free_of_shell_specials(proxy@) && free_of_blanks(proxy@),
{
    if proxy.is_empty() {
        return Ok(());
    }
    let len = proxy.unicode_len();
    let mut i: usize = 0;
    while i < len
        invariant
            len == proxy@.len(),
            i <= len,
            proxy@.len() > 0,
            forall|j: int| 0 <= j < i ==> proxy_char_allowed(#[trigger] proxy@[j]),
            forall|j: int|
                0 <= j < i ==> !shell_special(#[trigger] proxy@[j]) && proxy@[j] != ' ' && proxy@[j]
                    != '\t',
        decreases len - i,
    {
        if !is_proxy_char(proxy.get_char(i)) {
            assert(!all_proxy_chars(proxy@));
            return Err(String::from_str("Invalid proxy URL: contains forbidden characters"));
        }
        i = i + 1;
    }
    if !(matches_at(proxy, "http://", 0) || matches_at(proxy, "https://", 0) || matches_at(
        proxy,
        "socks4://",
        0,
    ) || matches_at(proxy, "socks5://", 0)) {
        return Err(
            String::from_str(
                "Invalid proxy URL: must start with http://, https://, socks4:// or socks5://",
            ),
        );
    }
    Ok(())
}

/// Accepts a non-empty site name made of alphanumeric characters, `.`, `-`,
/// spaces and `_`; otherwise says why not.
pub fn validate_site_name(site: &str) -> (r: Result<(), String>)
    ensures
        check_result(r, site_name_error(site@)),
        r is Ok ==> free_of_shell_specials(site@),
{
    if site.is_empty() {
        return Err(String::from_str("Site name cannot be empty"));
    }
    let len = site.unicode_len();
    let mut i: usize = 0;
    while i < len
        invariant
            len == site@.len(),
            i <= len,
            site@.len() > 0,
            forall|j: int| 0 <= j < i ==> site_char_allowed(#[trigger] site@[j]),
            forall|j: int| 0 <= j < i ==> !shell_special(#[trigger] site@[j]),
        decreases len - i,
    {
        if !is_site_char(site.get_char(i)) {
            assert(!all_site_chars(site@));
            let mut m = String::from_str("Invalid site name '");
            m.append(site);
            m.append("': only alphanumeric, dots, hyphens, underscores and spaces are allowed");
            return Err(m);
        }
        i = i + 1;
    }
    Ok(())
}

/// The characters accepted in usernames, written out: ASCII letters and
/// digits, `.`, `_`, `-`, `?`, and the non-ASCII characters that
/// `char::is_alphanumeric` accepts.
pub open spec fn username_char_listed(c: char) -> bool {
    ||| ('a' <= c && c <= 'z')
    ||| ('A' <= c && c <= 'Z')
    ||| ('0' <= c && c <= '9')
    ||| c == '.' || c == '_' || c == '-' || c == '?'
    ||| ('\x7f' < c && unicode_alphanumeric(c))
}

/// A username is accepted exactly when some character of it is not white
/// space, its UTF-8 encoding takes at most 64 bytes, and every character is
/// an ASCII letter or digit (upper or lower case), `.`, `_`, `-`, `?`, or a
/// non-ASCII alphanumeric character. When refused, the message says why:
/// blank, too long, or a character not allowed, in that order.
pub proof fn lemma_username_accepted_iff(u: Seq<char>)
    ensures
        username_error(u) is None <==> {
            &&& exists|i: int| 0 <= i < u.len() && !is_white_space(#[trigger] u[i])
            &&& (encode_utf8(u).len() as usize) <= 64
            &&& forall|i: int| 0 <= i < u.len() ==> username_char_listed(#[trigger] u[i])
        },
        (forall|i: int| 0 <= i < u.len() ==> is_white_space(#[trigger] u[i])) ==> username_error(u)
            == Some("Username cannot be empty"@),
        (exists|i: int| 0 <= i < u.len() && !is_white_space(#[trigger] u[i])) && (encode_utf8(
            u,
        ).len() as usize) > 64 ==> username_error(u) == Some(
            "Username '"@ + u + "' is too long (max 64 characters)"@,
        ),
        (exists|i: int| 0 <= i < u.len() && !is_white_space(#[trigger] u[i])) && (encode_utf8(
            u,
        ).len() as usize) <= 64 && !(forall|i: int|
            0 <= i < u.len() ==> username_char_listed(#[trigger] u[i])) ==> username_error(u)
            == Some(
            "Invalid username '"@ + u
                + "': only alphanumeric, dots, underscores, hyphens and ? are allowed"@,
        ),
{
    lemma_blank_iff_all_white_space(u);
    assert forall|c: char| #[trigger] username_char_allowed(c) <==> username_char_listed(c) by {}
    assert(all_username_chars(u) <==> forall|i: int|
        0 <= i < u.len() ==> username_char_listed(#[trigger] u[i]));
    reveal_strlit("' is too long (max ");
    reveal_strlit(" characters)");
    reveal_strlit("' is too long (max 64 characters)");
    reveal_with_fuel(decimal, 2);
    assert(decimal(64) =~= seq!['6', '4']);
    assert("' is too long (max "@ + decimal(MAX_USERNAME_LEN as nat) + " characters)"@ =~= "' is too long (max 64 characters)"@);
    let m = "Username '"@ + u + "' is too long (max "@ + decimal(MAX_USERNAME_LEN as nat)
        + " characters)"@;
    assert(m =~= "Username '"@ + u + "' is too long (max 64 characters)"@);
}

/// The characters accepted in proxy URLs, written out: ASCII letters and
/// digits, `.`, `:`, `/`, `-`, `_`, `@`, `[`, `]`, and the non-ASCII
/// characters that `char::is_alphanumeric` accepts.
pub open spec fn proxy_char_listed(c: char) -> bool {
    ||| ('a' <= c && c <= 'z')
    ||| ('A' <= c && c <= 'Z')
    ||| ('0' <= c && c <= '9')
    ||| c == '.' || c == ':' || c == '/' || c == '-' || c == '_' || c == '@' || c == '[' || c == ']'
    ||| ('\x7f' < c && unicode_alphanumeric(c))
}

/// A proxy URL is accepted exactly when it is empty (no proxy), or every
/// character is an ASCII letter or digit, a non-ASCII alphanumeric
/// character or one of `.:/-_@[]`, and it starts with `http://`,
/// `https://`, `socks4://` or `socks5://`. A forbidden character is
/// reported before a missing scheme.
pub proof fn lemma_proxy_accepted_iff(p: Seq<char>)
    ensures
        proxy_error(p) is None <==> (p.len() == 0 || ((forall|i: int|
            0 <= i < p.len() ==> proxy_char_listed(#[trigger] p[i])) && ("http://"@.is_prefix_of(p)
            || "https://"@.is_prefix_of(p) || "socks4://"@.is_prefix_of(p)
            || "socks5://"@.is_prefix_of(p)))),
        p.len() > 0 && !(forall|i: int| 0 <= i < p.len() ==> proxy_char_listed(#[trigger] p[i]))
            ==> proxy_error(p) == Some("Invalid proxy URL: contains forbidden characters"@),
        p.len() > 0 && (forall|i: int| 0 <= i < p.len() ==> proxy_char_listed(#[trigger] p[i]))
            && !("http://"@.is_prefix_of(p) || "https://"@.is_prefix_of(p)
            || "socks4://"@.is_prefix_of(p) || "socks5://"@.is_prefix_of(p)) ==> proxy_error(p)
            == Some(
            "Invalid proxy URL: must start with http://, https://, socks4:// or socks5://"@,
        ),
{
    assert forall|c: char| #[trigger] proxy_char_allowed(c) <==> proxy_char_listed(c) by {}
    assert(all_proxy_chars(p) <==> forall|i: int|
        0 <= i < p.len() ==> proxy_char_listed(#[trigger] p[i]));
}

/// The characters accepted in site names, written out: ASCII letters and
/// digits, `.`, `-`, space, `_`, and the non-ASCII characters that
/// `char::is_alphanumeric` accepts.
pub open spec fn site_char_listed(c: char) -> bool {
    ||| ('a' <= c && c <= 'z')
    ||| ('A' <= c && c <= 'Z')
    ||| ('0' <= c && c <= '9')
    ||| c == '.' || c == '-' || c == ' ' || c == '_'
    ||| ('\x7f' < c && unicode_alphanumeric(c))
}

/// A site name is accepted exactly when it is not empty and every character
/// is an ASCII letter or digit, a non-ASCII alphanumeric character, `.`,
/// `-`, a space or `_`; an empty name is reported as such.
pub proof fn lemma_site_name_accepted_iff(s: Seq<char>)
    ensures
        site_name_error(s) is None <==> (s.len() > 0 && forall|i: int|
            0 <= i < s.len() ==> site_char_listed(#[trigger] s[i])),
        s.len() == 0 ==> site_name_error(s) == Some("Site name cannot be empty"@),
        s.len() > 0 && !(forall|i: int| 0 <= i < s.len() ==> site_char_listed(#[trigger] s[i]))
            ==> site_name_error(s) == Some(
            "Invalid site name '"@ + s
                + "': only alphanumeric, dots, hyphens, underscores and spaces are allowed"@,
        ),
{
    assert forall|c: char| #[trigger] site_char_allowed(c) <==> site_char_listed(c) by {}
    assert(all_site_chars(s) <==> forall|i: int|
        0 <= i < s.len() ==> site_char_listed(#[trigger] s[i]));
}

} // verus!
