//! Placeholder substitution for the `.ini.sample` templates and line-level
//! `key=value` editing.
//!
//! Substitution is literal string replacement, so values containing characters
//! such as `\`, `&` or `/` are copied through unchanged.

use vstd::prelude::*;
use crate::text::{
    chars_of, copy_range, ends_with_newline, extend, has_prefix_at, join_lines, lines,
    push_char, push_joined, replace_all, replace_str, split_lines, starts_with, string_from, trim,
    trim_end_at, trim_start, trim_start_at, views,
};

verus! {

/// The four sentinels replaced in a sample.
pub struct Substitutions<'a> {
    pub interface: &'a str,
    pub elasticsearch: &'a str,
    pub password: &'a str,
    pub install_dir: &'a str,
}

/// Sentinel replacement, in the order interface, elasticsearch, password,
/// install dir (a value containing a later sentinel is itself replaced).
pub open spec fn render_spec(
    sample: Seq<char>,
    interface: Seq<char>,
    elasticsearch: Seq<char>,
    password: Seq<char>,
    install_dir: Seq<char>,
) -> Seq<char> {
    replace_all(
        replace_all(
            replace_all(
                replace_all(sample, "ARKIME_INTERFACE"@, interface),
                "ARKIME_ELASTICSEARCH"@,
                elasticsearch,
            ),
            "ARKIME_PASSWORD"@,
            password,
        ),
        "ARKIME_INSTALL_DIR"@,
        install_dir,
    )
}

/// Render a sample by literal placeholder replacement.
pub fn render(sample: &str, subs: &Substitutions) -> (out: String)
    ensures
        out@ == render_spec(
            sample@,
            subs.interface@,
            subs.elasticsearch@,
            subs.password@,
            subs.install_dir@,
        ),
{
    let a = replace_str(sample, "ARKIME_INTERFACE", subs.interface);
    let b = replace_str(a.as_str(), "ARKIME_ELASTICSEARCH", subs.elasticsearch);
    let c = replace_str(b.as_str(), "ARKIME_PASSWORD", subs.password);
    replace_str(c.as_str(), "ARKIME_INSTALL_DIR", subs.install_dir)
}

/// How to encode the `user:password` in `elasticsearchBasicAuth`. Base64 is an
/// encoding, not encryption.
#[derive(Debug, Clone, Copy, PartialEq, Eq, Structural)]
pub enum BasicAuthEncoding {
    Plaintext,
    Base64,
}

impl Default for BasicAuthEncoding {
    fn default() -> (e: BasicAuthEncoding)
        ensures
            e == BasicAuthEncoding::Plaintext,
    {
        BasicAuthEncoding::Plaintext
    }
}

// ---------------------------------------------------------------------------
// Base64
// ---------------------------------------------------------------------------

/// The standard base64 alphabet (RFC 4648), digit `n` in `0..64`.
pub open spec fn b64_digit(n: int) -> char {
    if n < 26 {
        ((n + 65) as u8) as char
    } else if n < 52 {
        ((n - 26 + 97) as u8) as char
    } else if n < 62 {
        ((n - 52 + 48) as u8) as char
    } else if n == 62 {
        '+'
    } else {
        '/'
    }
}

/// Standard base64 with `=` padding and no line wrapping: each group of up to
/// three bytes becomes four characters.
pub open spec fn base64_spec(b: Seq<u8>) -> Seq<char>
    decreases b.len(),
{
    if b.len() == 0 {
        seq![]
    } else {
        let b1: int = if b.len() > 1 { b[1] as int } else { 0 };
        let b2: int = if b.len() > 2 { b[2] as int } else { 0 };
        let n = b[0] as int * 65536 + b1 * 256 + b2;
        let quad = seq![
            b64_digit(n / 262144),
            b64_digit((n / 4096) % 64),
            if b.len() > 1 { b64_digit((n / 64) % 64) } else { '=' },
            if b.len() > 2 { b64_digit(n % 64) } else { '=' },
        ];
        if b.len() <= 3 {
            quad
        } else {
            quad + base64_spec(b.skip(3))
        }
    }
}

fn b64_char(n: u32) -> (c: char)
    requires
        n < 64,
    ensures
        c == b64_digit(n as int),
{
    if n < 26 {
        ((n + 65) as u8) as char
    } else if n < 52 {
        ((n - 26 + 97) as u8) as char
    } else if n < 62 {
        ((n - 52 + 48) as u8) as char
    } else if n == 62 {
        '+'
    } else {
        '/'
    }
}

/// Standard-alphabet base64 (RFC 4648), no line wrapping.
pub fn base64_encode(input: &[u8]) -> (out: String)
    ensures
        out@ == base64_spec(input@),
{
    let len = input.len();
    let mut out = String::new();
    let mut i: usize = 0;
    proof {
        assert(input@.skip(0) == input@);
    }
    while i < len
        invariant
            len == input@.len(),
            i <= len,
            out@ + base64_spec(input@.skip(i as int)) == base64_spec(input@),
        decreases len - i,
    {
        let ghost rest = input@.skip(i as int);
        let rem = len - i;
        let b0 = input[i] as u32;
        let b1: u32 = if rem > 1 { input[i + 1] as u32 } else { 0 };
        let b2: u32 = if rem > 2 { input[i + 2] as u32 } else { 0 };
        let n: u32 = b0 * 65536 + b1 * 256 + b2;
        let ghost before = out@;
        push_char(&mut out, b64_char(n / 262144));
        push_char(&mut out, b64_char((n / 4096) % 64));
        if rem > 1 {
            push_char(&mut out, b64_char((n / 64) % 64));
        } else {
            push_char(&mut out, '=');
        }
        if rem > 2 {
            push_char(&mut out, b64_char(n % 64));
        } else {
            push_char(&mut out, '=');
        }
        proof {
            assert(rest[0] == input@[i as int]);
            assert(rest.len() > 1 ==> rest[1] == input@[i + 1]);
            assert(rest.len() > 2 ==> rest[2] == input@[i + 2]);
            let quad = out@.subrange(before.len() as int, out@.len() as int);
            assert(out@ == before + quad);
            if rem > 3 {
                assert(rest.skip(3) == input@.skip(i + 3));
                assert(base64_spec(rest) == quad + base64_spec(rest.skip(3)));
                assert(before + (quad + base64_spec(rest.skip(3))) == (before + quad)
                    + base64_spec(rest.skip(3)));
            } else {
                assert(base64_spec(rest) == quad);
                assert(input@.skip(len as int).len() == 0);
                assert(out@ + base64_spec(input@.skip(len as int)) == out@);
            }
        }
        if rem > 3 {
            i = i + 3;
        } else {
            i = len;
        }
    }
    proof {
        assert(input@.skip(len as int).len() == 0);
        assert(out@ + base64_spec(input@.skip(len as int)) == out@);
    }
    out
}

// ---------------------------------------------------------------------------
// Basic auth
// ---------------------------------------------------------------------------

/// The `elasticsearchBasicAuth` value: `user:pass`, or the base64 of its UTF-8
/// bytes.
pub open spec fn basic_auth_spec(user: Seq<char>, pass: Seq<char>, enc: BasicAuthEncoding) -> Seq<
    char,
> {
    let plain = user + seq![':'] + pass;
    match enc {
        BasicAuthEncoding::Plaintext => plain,
        BasicAuthEncoding::Base64 => base64_spec(vstd::utf8::encode_utf8(plain)),
    }
}

/// The `elasticsearchBasicAuth` value alone (`user:pass` or its base64 form).
pub fn basic_auth_value(user: &str, pass: &str, enc: BasicAuthEncoding) -> (v: String)
    ensures
        v@ == basic_auth_spec(user@, pass@, enc),
{
    let mut plain = user.to_owned();
    plain.append(":");
    plain.append(pass);
    proof {
        reveal_strlit(":");
        assert(plain@ == user@ + seq![':'] + pass@);
    }
    match enc {
        BasicAuthEncoding::Plaintext => plain,
        BasicAuthEncoding::Base64 => {
            let p = plain.as_str();
            base64_encode(p.as_bytes())
        },
    }
}

/// Uncomment and fill the `# elasticsearchBasicAuth=` line. Every occurrence of
/// the commented marker is replaced; without a marker the text is unchanged.
pub fn inject_basic_auth(config: &mut String, user: &str, pass: &str, enc: BasicAuthEncoding)
    ensures
        final(config)@ == replace_all(
            old(config)@,
            "# elasticsearchBasicAuth="@,
            "elasticsearchBasicAuth="@ + basic_auth_spec(user@, pass@, enc),
        ),
{
    let value = basic_auth_value(user, pass, enc);
    let mut rep = "elasticsearchBasicAuth=".to_owned();
    rep.append(value.as_str());
    let out = replace_str(config.as_str(), "# elasticsearchBasicAuth=", rep.as_str());
    *config = out;
}

// ---------------------------------------------------------------------------
// Key editing
// ---------------------------------------------------------------------------

/// A line with leading whitespace removed, and then one `#` and the whitespace
/// after it, when the line is commented out.
pub open spec fn ini_bare(line: Seq<char>) -> Seq<char> {
    let b = trim_start(line);
    if b.len() > 0 && b[0] == '#' {
        trim_start(b.drop_first())
    } else {
        b
    }
}

/// The line sets `needle` (`key=`), commented out or not.
pub open spec fn ini_key_line(line: Seq<char>, needle: Seq<char>) -> bool {
    starts_with(ini_bare(line), needle)
}

pub open spec fn first_ini_key_line(ls: Seq<Seq<char>>, needle: Seq<char>, k: int) -> bool {
    &&& 0 <= k < ls.len()
    &&& ini_key_line(ls[k], needle)
    &&& forall|m: int| 0 <= m < k ==> !ini_key_line(#[trigger] ls[m], needle)
}

/// What `set_ini_key_opt` produces: the first `key=` line (commented or not)
/// becomes `key=value`; the lines are joined with `\n`, a final newline is kept
/// when the input had one, and `key=value\n` is appended as a line of its own
/// when no line matched and appending is asked for (after a `\n` ending the
/// last line, when the input's last line had none).
pub open spec fn set_ini_key_spec(
    config: Seq<char>,
    key: Seq<char>,
    value: Seq<char>,
    append_if_missing: bool,
) -> Seq<char> {
    let ls = lines(config);
    let needle = key + seq!['='];
    let nl = needle + value;
    let found = exists|k: int| first_ini_key_line(ls, needle, k);
    let body = join_lines(
        Seq::new(ls.len(), |k: int| if first_ini_key_line(ls, needle, k) { nl } else { ls[k] }),
    );
    let body = if ends_with_newline(config) { body.push('\n') } else { body };
    if !found && append_if_missing {
        let body = if config.len() > 0 && !ends_with_newline(config) { body.push('\n') } else { body };
        body + nl.push('\n')
    } else {
        body
    }
}

fn ini_key_line_exec(line: &Vec<char>, needle: &Vec<char>) -> (b: bool)
    ensures
        b == ini_key_line(line@, needle@),
{
    let n = line.len();
    let a = trim_start_at(line, 0, n);
    proof {
        assert(line@.subrange(0, n as int) == line@);
    }
    if a < n && line[a] == '#' {
        let c = trim_start_at(line, a + 1, n);
        proof {
            assert(line@.subrange(a as int, n as int).drop_first() == line@.subrange(
                a + 1,
                n as int,
            ));
        }
        has_prefix_at(line, c, n, needle)
    } else {
        has_prefix_at(line, a, n, needle)
    }
}

/// `key` followed by `=`.
fn needle_of(key: &str) -> (v: Vec<char>)
    ensures
        v@ == key@ + seq!['='],
{
    let mut v = chars_of(key);
    v.push('=');
    v
}

/// Set an INI `key=value`, replacing the first existing line for `key` —
/// commented (`# key=`) or not — or appending it if absent.
pub fn set_ini_key(config: &str, key: &str, value: &str) -> (out: String)
    ensures
        out@ == set_ini_key_spec(config@, key@, value@, true),
{
    set_ini_key_opt(config, key, value, true)
}

/// Like [`set_ini_key`], but `append_if_missing` controls whether a new line is
/// added when no `key=` line exists.
pub fn set_ini_key_opt(config: &str, key: &str, value: &str, append_if_missing: bool) -> (out:
    String)
    ensures
        out@ == set_ini_key_spec(config@, key@, value@, append_if_missing),
{
    let cv = chars_of(config);
    let needle = needle_of(key);
    let mut nl = copy_range(&needle, 0, needle.len());
    let vv = chars_of(value);
    extend(&mut nl, &vv);
    proof {
        assert(needle@.subrange(0, needle@.len() as int) == needle@);
    }
    let ls = split_lines(&cv);
    let ghost lsv = lines(cv@);
    let ghost target = Seq::new(
        lsv.len(),
        |k: int| if first_ini_key_line(lsv, needle@, k) { nl@ } else { lsv[k] },
    );
    let mut out: Vec<char> = Vec::new();
    let mut replaced = false;
    let mut j: usize = 0;
    while j < ls.len()
        invariant
            views(ls@) == lsv,
            target.len() == lsv.len(),
            forall|k: int|
                0 <= k < lsv.len() ==> #[trigger] target[k] == if first_ini_key_line(
                    lsv,
                    needle@,
                    k,
                ) {
                    nl@
                } else {
                    lsv[k]
                },
            j <= ls.len(),
            out@ == join_lines(target.take(j as int)),
            replaced == exists|k: int| 0 <= k < j && ini_key_line(#[trigger] lsv[k], needle@),
        decreases ls.len() - j,
    {
        assert(lsv[j as int] == ls@[j as int]@);
        let hit = !replaced && ini_key_line_exec(&ls[j], &needle);
        proof {
            if hit {
                assert(first_ini_key_line(lsv, needle@, j as int));
            } else {
                if replaced {
                    let k0 = choose|k: int| 0 <= k < j && ini_key_line(#[trigger] lsv[k], needle@);
                    assert(!first_ini_key_line(lsv, needle@, j as int)) by {
                        assert(ini_key_line(lsv[k0], needle@));
                    }
                }
            }
            assert(target.take(j + 1) == target.take(j as int).push(target[j as int]));
        }
        if hit {
            push_joined(&mut out, j, &nl, Ghost(target.take(j as int)));
            replaced = true;
        } else {
            push_joined(&mut out, j, &ls[j], Ghost(target.take(j as int)));
        }
        proof {
            if !hit && !replaced {
                assert forall|k: int| 0 <= k < j + 1 implies !ini_key_line(
                    #[trigger] lsv[k],
                    needle@,
                ) by {
                    if k == j {
                        assert(lsv[k] == ls@[j as int]@);
                    }
                }
            }
            if hit {
                assert(ini_key_line(lsv[j as int], needle@));
            }
        }
        j += 1;
    }
    proof {
        assert(target.take(lsv.len() as int) == target);
        assert(target =~= Seq::new(
            lsv.len(),
            |k: int| if first_ini_key_line(lsv, needle@, k) { nl@ } else { lsv[k] },
        ));
        if replaced {
            let k0 = choose|k: int| 0 <= k < lsv.len() && ini_key_line(#[trigger] lsv[k], needle@);
            lemma_first_exists(lsv, needle@, k0);
        } else {
            assert forall|k: int| !first_ini_key_line(lsv, needle@, k) by {
                if 0 <= k < lsv.len() {
                    assert(!ini_key_line(lsv[k], needle@));
                }
            }
        }
    }
    let ghost body0 = out@;
    assert(body0 == join_lines(target));
    let n = cv.len();
    if n > 0 && cv[n - 1] == '\n' {
        out.push('\n');
    }
    let ghost body1 = out@;
    assert(body1 == if ends_with_newline(config@) { body0.push('\n') } else { body0 });
    if !replaced && append_if_missing {
        if n > 0 && cv[n - 1] != '\n' {
            out.push('\n');
        }
        let ghost body2 = out@;
        extend(&mut out, &nl);
        out.push('\n');
        assert(out@ == body2 + nl@.push('\n'));
    }
    let r = string_from(&out);
    assert(r@ == set_ini_key_spec(config@, key@, value@, append_if_missing)) by {
        let ls = lines(config@);
        let nd = key@ + seq!['='];
        let nl2 = nd + value@;
        assert(ls == lsv);
        assert(nd == needle@);
        assert(nl2 == nl@);
        assert(Seq::new(
            ls.len(),
            |k: int| if first_ini_key_line(ls, nd, k) { nl2 } else { ls[k] },
        ) =~= target);
        assert((exists|k: int| first_ini_key_line(ls, nd, k)) == replaced);
    }
    r
}

/// When some line sets the key, a first such line exists.
proof fn lemma_first_exists(ls: Seq<Seq<char>>, needle: Seq<char>, k: int)
    requires
        0 <= k < ls.len(),
        ini_key_line(ls[k], needle),
    ensures
        exists|f: int| first_ini_key_line(ls, needle, f),
    decreases k,
{
    if exists|m: int| 0 <= m < k && ini_key_line(#[trigger] ls[m], needle) {
        let m = choose|m: int| 0 <= m < k && ini_key_line(#[trigger] ls[m], needle);
        lemma_first_exists(ls, needle, m);
    } else {
        assert(first_ini_key_line(ls, needle, k));
    }
}

// ---------------------------------------------------------------------------
// Key reading
// ---------------------------------------------------------------------------

/// An uncommented line that sets `needle` (`key=`).
pub open spec fn value_line(line: Seq<char>, needle: Seq<char>) -> bool {
    let b = trim_start(line);
    !(b.len() > 0 && b[0] == '#') && starts_with(b, needle)
}

pub open spec fn first_value_line(ls: Seq<Seq<char>>, needle: Seq<char>, k: int) -> bool {
    &&& 0 <= k < ls.len()
    &&& value_line(ls[k], needle)
    &&& forall|m: int| 0 <= m < k ==> !value_line(#[trigger] ls[m], needle)
}

/// The trimmed value of the first uncommented `key=` line, if any.
pub open spec fn get_key_spec(text: Seq<char>, key: Seq<char>) -> Option<Seq<char>> {
    let ls = lines(text);
    let needle = key + seq!['='];
    if exists|k: int| first_value_line(ls, needle, k) {
        let k = choose|k: int| first_value_line(ls, needle, k);
        Some(trim(trim_start(ls[k]).skip(needle.len() as int)))
    } else {
        None
    }
}

/// The value of the first uncommented `key=` line in `text`, trimmed.
pub fn get_key_value(text: &str, key: &str) -> (r: Option<String>)
    ensures
        r matches Some(s) ==> get_key_spec(text@, key@) == Some(s@),
        r is None ==> get_key_spec(text@, key@) is None,
{
    let cv = chars_of(text);
    let needle = needle_of(key);
    let ls = split_lines(&cv);
    let ghost lsv = lines(cv@);
    let mut j: usize = 0;
    while j < ls.len()
        invariant
            views(ls@) == lsv,
            lsv == lines(text@),
            needle@ == key@ + seq!['='],
            j <= ls.len(),
            forall|m: int| 0 <= m < j ==> !value_line(#[trigger] lsv[m], needle@),
        decreases ls.len() - j,
    {
        let line = &ls[j];
        assert(lsv[j as int] == line@);
        let n = line.len();
        let a = trim_start_at(line, 0, n);
        proof {
            assert(line@.subrange(0, n as int) == line@);
        }
        let commented = a < n && line[a] == '#';
        if !commented && has_prefix_at(line, a, n, &needle) {
            let s1 = trim_start_at(line, a + needle.len(), n);
            let e = trim_end_at(line, s1, n);
            let piece = copy_range(line, s1, e);
            proof {
                assert(first_value_line(lsv, needle@, j as int));
                let k = choose|k: int| first_value_line(lsv, needle@, k);
                assert(k == j) by {
                    if k < j {
                        assert(!value_line(lsv[k], needle@));
                    }
                    if k > j {
                        assert(!value_line(lsv[j as int], needle@));
                    }
                }
                let ts = trim_start(line@);
                assert(ts == line@.subrange(a as int, n as int));
                assert(ts.skip(needle@.len() as int) == line@.subrange(
                    a + needle@.len(),
                    n as int,
                ));
                assert(trim_start(ts.skip(needle@.len() as int)) == line@.subrange(
                    s1 as int,
                    n as int,
                ));
                assert(trim(ts.skip(needle@.len() as int)) == piece@);
            }
            let r = string_from(&piece);
            proof {
                let ls = lines(text@);
                let nd = key@ + seq!['='];
                assert(ls == lsv);
                assert(nd == needle@);
                assert(first_value_line(ls, nd, j as int));
            }
            assert(get_key_spec(text@, key@) == Some(r@));
            return Some(r);
        }
        j += 1;
    }
    proof {
        assert forall|k: int| !first_value_line(lsv, needle@, k) by {
            if 0 <= k < lsv.len() {
                assert(!value_line(lsv[k], needle@));
            }
        }
    }
    None
}

/// Read the value of an INI `key=` line, ignoring commented lines. Returns the
/// first uncommented match, trimmed.
pub fn get_ini_key(config: &str, key: &str) -> (r: Option<String>)
    ensures
        r matches Some(s) ==> get_key_spec(config@, key@) == Some(s@),
        r is None ==> get_key_spec(config@, key@) is None,
{
    get_key_value(config, key)
}

// ---------------------------------------------------------------------------
// Laws of key editing
// ---------------------------------------------------------------------------

/// The trimmed value a `key=` line gives.
pub open spec fn line_value(line: Seq<char>, needle: Seq<char>) -> Seq<char> {
    trim(trim_start(line).skip(needle.len() as int))
}

/// The value of the first uncommented `key=` line among `ls`.
pub open spec fn get_lines(ls: Seq<Seq<char>>, needle: Seq<char>) -> Option<Seq<char>> {
    if exists|k: int| first_value_line(ls, needle, k) {
        Some(line_value(ls[choose|k: int| first_value_line(ls, needle, k)], needle))
    } else {
        None
    }
}

/// A key the line editing handles: one line, no `=`, and not starting with
/// whitespace or `#` (so its `key=value` line is read back as such).
pub open spec fn plain_key(key: Seq<char>) -> bool {
    &&& !key.contains('\n')
    &&& !key.contains('=')
    &&& key.len() > 0
    &&& !crate::text::is_ws(key[0])
    &&& key[0] != '#'
}

/// `ls` and `ms` line up, each line of `ls` being the one of `ms` or it
/// without a trailing carriage return.
pub open spec fn cr_equiv(ls: Seq<Seq<char>>, ms: Seq<Seq<char>>) -> bool {
    &&& ls.len() == ms.len()
    &&& forall|i: int|
        0 <= i < ls.len() ==> #[trigger] ls[i] == ms[i] || ls[i] == crate::text::strip_cr(ms[i])
}

pub(crate) proof fn lemma_get_key_spec_lines(text: Seq<char>, key: Seq<char>)
    ensures
        get_key_spec(text, key) == get_lines(lines(text), key + seq!['=']),
{
}

/// The first value line, when there is one, is unique.
pub(crate) proof fn lemma_get_lines_at(ls: Seq<Seq<char>>, needle: Seq<char>, k: int)
    requires
        first_value_line(ls, needle, k),
    ensures
        get_lines(ls, needle) == Some(line_value(ls[k], needle)),
{
    let j = choose|j: int| first_value_line(ls, needle, j);
    assert(first_value_line(ls, needle, j));
    if j < k {
        assert(!value_line(ls[j], needle));
    } else if k < j {
        assert(!value_line(ls[k], needle));
    }
}

pub(crate) proof fn lemma_get_lines_none(ls: Seq<Seq<char>>, needle: Seq<char>)
    requires
        forall|i: int| 0 <= i < ls.len() ==> !value_line(#[trigger] ls[i], needle),
    ensures
        get_lines(ls, needle) is None,
{
}

/// An uncommented `key=` line also counts as a line for `key` when editing.
pub(crate) proof fn lemma_value_line_is_key_line(l: Seq<char>, needle: Seq<char>)
    ensures
        value_line(l, needle) ==> ini_key_line(l, needle),
{
}

/// Dropping a trailing carriage return changes neither whether a line is an
/// uncommented `key=` line nor the value it gives.
pub(crate) proof fn lemma_strip_cr_line(l: Seq<char>, needle: Seq<char>)
    requires
        needle.len() > 0,
        needle.last() == '=',
    ensures
        value_line(crate::text::strip_cr(l), needle) == value_line(l, needle),
        value_line(l, needle) ==> line_value(crate::text::strip_cr(l), needle) == line_value(l, needle),
{
    if l.len() > 0 && l.last() == '\r' {
        let l0 = l.drop_last();
        assert(l0.push('\r') =~= l);
        crate::text::lemma_trim_start_push(l0, '\r');
        let b0 = trim_start(l0);
        let b = trim_start(l);
        if b0.len() > 0 {
            assert(b == b0.push('\r'));
            assert(b[0] == b0[0]);
            if starts_with(b, needle) {
                assert(needle.len() < b.len()) by {
                    if needle.len() == b.len() {
                        assert(b.subrange(0, needle.len() as int) =~= b);
                        assert(needle.last() == b.last());
                    }
                }
                assert(b0.subrange(0, needle.len() as int) =~= b.subrange(0, needle.len() as int));
                assert(starts_with(b0, needle));
                assert(b.skip(needle.len() as int) =~= b0.skip(needle.len() as int).push('\r'));
                crate::text::lemma_trim_push_ws(b0.skip(needle.len() as int), '\r');
            }
            if starts_with(b0, needle) {
                assert(b.subrange(0, needle.len() as int) =~= b0.subrange(0, needle.len() as int));
            }
        } else {
            assert(seq!['\r'].drop_first().len() == 0);
            assert(trim_start(seq!['\r']) == trim_start(seq!['\r'].drop_first()));
            assert(b.len() == 0);
        }
    }
}

/// Reading a key gives the same over lines that line up.
pub(crate) proof fn lemma_cr_equiv_get(ls: Seq<Seq<char>>, ms: Seq<Seq<char>>, needle: Seq<char>)
    requires
        cr_equiv(ls, ms),
        needle.len() > 0,
        needle.last() == '=',
    ensures
        get_lines(ls, needle) == get_lines(ms, needle),
{
    assert forall|i: int| 0 <= i < ls.len() implies value_line(#[trigger] ls[i], needle) == value_line(
        ms[i],
        needle,
    ) && (value_line(ms[i], needle) ==> line_value(ls[i], needle) == line_value(ms[i], needle)) by {
        lemma_strip_cr_line(ms[i], needle);
    }
    if exists|k: int| first_value_line(ms, needle, k) {
        let k = choose|k: int| first_value_line(ms, needle, k);
        assert(first_value_line(ls, needle, k)) by {
            assert forall|m: int| 0 <= m < k implies !value_line(#[trigger] ls[m], needle) by {
                assert(!value_line(ms[m], needle));
            }
        }
        lemma_get_lines_at(ls, needle, k);
        lemma_get_lines_at(ms, needle, k);
    } else {
        assert forall|i: int| 0 <= i < ms.len() implies !value_line(#[trigger] ms[i], needle) by {
            if value_line(ms[i], needle) {
                lemma_first_value_exists(ms, needle, i);
            }
        }
        lemma_get_lines_none(ms, needle);
        assert forall|i: int| 0 <= i < ls.len() implies !value_line(#[trigger] ls[i], needle) by {
            assert(!value_line(ms[i], needle));
        }
        lemma_get_lines_none(ls, needle);
    }
}

/// When some line is an uncommented `key=` line, a first one exists.
pub(crate) proof fn lemma_first_value_exists(ls: Seq<Seq<char>>, needle: Seq<char>, k: int)
    requires
        0 <= k < ls.len(),
        value_line(ls[k], needle),
    ensures
        exists|f: int| first_value_line(ls, needle, f),
    decreases k,
{
    if exists|m: int| 0 <= m < k && value_line(#[trigger] ls[m], needle) {
        let m = choose|m: int| 0 <= m < k && value_line(#[trigger] ls[m], needle);
        lemma_first_value_exists(ls, needle, m);
    } else {
        assert(first_value_line(ls, needle, k));
    }
}

/// The lines `set_ini_key_opt` writes, before they are joined.
pub open spec fn set_lines(config: Seq<char>, key: Seq<char>, value: Seq<char>, append: bool) -> Seq<Seq<char>> {
    let ls = lines(config);
    let needle = key + seq!['='];
    let nl = needle + value;
    let ls2 = Seq::new(ls.len(), |k: int| if first_ini_key_line(ls, needle, k) { nl } else { ls[k] });
    if !(exists|k: int| first_ini_key_line(ls, needle, k)) && append {
        ls2.push(nl)
    } else {
        ls2
    }
}

/// The written text splits back into the written lines, unless a line is
/// appended to a text whose last line is not terminated.
proof fn lemma_set_lines(config: Seq<char>, key: Seq<char>, value: Seq<char>, append: bool)
    requires
        !key.contains('\n'),
        !value.contains('\n'),
    ensures
        cr_equiv(lines(set_ini_key_spec(config, key, value, append)), set_lines(config, key, value, append)),
{
    let ls = lines(config);
    let needle = key + seq!['='];
    let nl = needle + value;
    let found = exists|k: int| first_ini_key_line(ls, needle, k);
    let ls2 = Seq::new(ls.len(), |k: int| if first_ini_key_line(ls, needle, k) { nl } else { ls[k] });
    let out = set_ini_key_spec(config, key, value, append);
    crate::text::lemma_lines_from_shape(config, seq![]);
    assert(!nl.contains('\n')) by {
        if nl.contains('\n') {
            let j = choose|j: int| 0 <= j < nl.len() && nl[j] == '\n';
            if j < key.len() {
                assert(key[j] == '\n');
            } else if j > key.len() {
                assert(value[j - key.len() - 1] == '\n');
            }
        }
    }
    assert forall|i: int| 0 <= i < ls2.len() implies !(#[trigger] ls2[i]).contains('\n') by {
        assert(!ls[i].contains('\n'));
    }
    if !found {
        assert(ls2 =~= ls);
    }
    if crate::text::ends_with_newline(config) {
        if !found && append {
            let l3 = ls2.push(nl);
            assert(ls2.len() > 0);
            assert(l3.drop_last() =~= ls2);
            assert(join_lines(l3) == join_lines(ls2) + seq!['\n'] + nl);
            assert(out =~= join_lines(l3) + seq!['\n'] + seq![]);
            assert forall|i: int| 0 <= i < l3.len() implies !(#[trigger] l3[i]).contains('\n') by {
                if i < ls2.len() {
                    assert(l3[i] == ls2[i]);
                }
            }
            crate::text::lemma_lines_join_nl(l3, seq![]);
            assert(crate::text::lines_from(seq![], seq![]) == Seq::<Seq<char>>::empty());
        } else {
            assert(out =~= join_lines(ls2) + seq!['\n'] + seq![]);
            crate::text::lemma_lines_join_nl(ls2, seq![]);
            assert(crate::text::lines_from(seq![], seq![]) == Seq::<Seq<char>>::empty());
        }
        assert(lines(out) =~= Seq::new(set_lines(config, key, value, append).len(), |i: int| crate::text::strip_cr(
            set_lines(config, key, value, append)[i],
        )));
    } else if config.len() > 0 && !found && append {
        assert(ls2.len() > 0);
        let l3 = ls2.push(nl);
        assert(l3.drop_last() =~= ls2);
        assert(join_lines(l3) == join_lines(ls2) + seq!['\n'] + nl);
        assert(out =~= join_lines(l3) + seq!['\n'] + seq![]);
        assert forall|i: int| 0 <= i < l3.len() implies !(#[trigger] l3[i]).contains('\n') by {
            if i < ls2.len() {
                assert(l3[i] == ls2[i]);
            }
        }
        crate::text::lemma_lines_join_nl(l3, seq![]);
        assert(crate::text::lines_from(seq![], seq![]) == Seq::<Seq<char>>::empty());
        assert(lines(out) =~= Seq::new(set_lines(config, key, value, append).len(), |i: int| crate::text::strip_cr(
            set_lines(config, key, value, append)[i],
        )));
    } else if config.len() > 0 {
        assert(out == join_lines(ls2));
        assert(ls2.last().len() > 0) by {
            assert(ls2.last() == ls2[ls2.len() - 1]);
            assert(nl.len() > 0);
        }
        crate::text::lemma_lines_join_end(ls2);
    } else {
        assert(ls.len() == 0);
        assert(ls2.len() == 0);
        assert(join_lines(ls2).len() == 0);
        if append {
            let l1 = seq![nl];
            assert(join_lines(l1) == nl);
            assert(out =~= join_lines(l1) + seq!['\n'] + seq![]);
            crate::text::lemma_lines_join_nl(l1, seq![]);
            assert(crate::text::lines_from(seq![], seq![]) == Seq::<Seq<char>>::empty());
            assert(ls2.push(nl) =~= l1);
        } else {
            assert(out.len() == 0);
        }
    }
}

/// Reading a key back after setting it gives the value set, trimmed.
pub proof fn lemma_ini_get_after_set(config: Seq<char>, key: Seq<char>, value: Seq<char>)
    requires
        plain_key(key),
        !value.contains('\n'),
    ensures
        get_key_spec(set_ini_key_spec(config, key, value, true), key) == Some(trim(value)),
{
    let ls = lines(config);
    let needle = key + seq!['='];
    let nl = needle + value;
    if exists|k: int| 0 <= k < ls.len() && ini_key_line(#[trigger] ls[k], needle) {
        let k = choose|k: int| 0 <= k < ls.len() && ini_key_line(#[trigger] ls[k], needle);
        lemma_first_exists(ls, needle, k);
    }
    lemma_set_lines(config, key, value, true);
    let ms = set_lines(config, key, value, true);
    lemma_cr_equiv_get(lines(set_ini_key_spec(config, key, value, true)), ms, needle);
    assert(trim_start(nl) == nl);
    assert(starts_with(nl, needle)) by {
        assert(nl.subrange(0, needle.len() as int) =~= needle);
    }
    assert(value_line(nl, needle));
    assert(nl.skip(needle.len() as int) =~= value);
    if exists|k: int| first_ini_key_line(ls, needle, k) {
        let k = choose|k: int| first_ini_key_line(ls, needle, k);
        assert forall|m: int| 0 <= m < k implies !value_line(#[trigger] ms[m], needle) by {
            assert(!ini_key_line(ls[m], needle));
            assert(!first_ini_key_line(ls, needle, m));
            lemma_value_line_is_key_line(ls[m], needle);
        }
        assert(first_value_line(ms, needle, k));
        lemma_get_lines_at(ms, needle, k);
    } else {
        assert forall|m: int| 0 <= m < ls.len() implies !value_line(#[trigger] ms[m], needle) by {
            if ini_key_line(ls[m], needle) {
                lemma_first_exists(ls, needle, m);
            }
            lemma_value_line_is_key_line(ls[m], needle);
        }
        assert(first_value_line(ms, needle, ls.len() as int));
        lemma_get_lines_at(ms, needle, ls.len() as int);
    }
    lemma_get_key_spec_lines(set_ini_key_spec(config, key, value, true), key);
}

/// Two different keys without `=`: a line for one is no line for the other.
pub(crate) proof fn lemma_needles_apart(b: Seq<char>, key: Seq<char>, other: Seq<char>)
    requires
        !key.contains('='),
        !other.contains('='),
        key != other,
        starts_with(b, key + seq!['=']),
    ensures
        !starts_with(b, other + seq!['=']),
{
    let n1 = key + seq!['='];
    let n2 = other + seq!['='];
    if starts_with(b, n2) {
        if key.len() < other.len() {
            assert(n2[key.len() as int] == b[key.len() as int]);
            assert(n1[key.len() as int] == b[key.len() as int]);
            assert(other[key.len() as int] == '=');
        } else if other.len() < key.len() {
            assert(n1[other.len() as int] == b[other.len() as int]);
            assert(n2[other.len() as int] == b[other.len() as int]);
            assert(key[other.len() as int] == '=');
        } else {
            assert forall|i: int| 0 <= i < key.len() implies key[i] == other[i] by {
                assert(n1[i] == b[i]);
                assert(n2[i] == b[i]);
            }
            assert(key =~= other);
        }
    }
}

/// Setting one key leaves what every other key reads as it was (unknown
/// keys are preserved).
pub proof fn lemma_ini_set_keeps_others(
    config: Seq<char>,
    key: Seq<char>,
    value: Seq<char>,
    append: bool,
    other: Seq<char>,
)
    requires
        plain_key(key),
        !value.contains('\n'),
        !other.contains('='),
        other != key,
    ensures
        get_key_spec(set_ini_key_spec(config, key, value, append), other) == get_key_spec(config, other),
{
    let ls = lines(config);
    let needle = key + seq!['='];
    let n2 = other + seq!['='];
    let nl = needle + value;
    if exists|k: int| 0 <= k < ls.len() && ini_key_line(#[trigger] ls[k], needle) {
        let k = choose|k: int| 0 <= k < ls.len() && ini_key_line(#[trigger] ls[k], needle);
        lemma_first_exists(ls, needle, k);
    }
    lemma_set_lines(config, key, value, append);
    let ms = set_lines(config, key, value, append);
    lemma_cr_equiv_get(lines(set_ini_key_spec(config, key, value, append)), ms, n2);
    assert(!value_line(nl, n2)) by {
        assert(trim_start(nl) == nl);
        assert(nl.subrange(0, needle.len() as int) =~= needle);
        lemma_needles_apart(nl, key, other);
    }
    assert forall|i: int| 0 <= i < ls.len() implies value_line(#[trigger] ms[i], n2) == value_line(ls[i], n2)
        && (value_line(ls[i], n2) ==> ms[i] == ls[i]) by {
        if first_ini_key_line(ls, needle, i) {
            if value_line(ls[i], n2) {
                lemma_needles_apart(trim_start(ls[i]), other, key);
            }
        }
    }
    if exists|k: int| first_value_line(ls, n2, k) {
        let k = choose|k: int| first_value_line(ls, n2, k);
        assert(first_value_line(ms, n2, k)) by {
            assert forall|m: int| 0 <= m < k implies !value_line(#[trigger] ms[m], n2) by {
                assert(!value_line(ls[m], n2));
            }
        }
        lemma_get_lines_at(ms, n2, k);
        lemma_get_lines_at(ls, n2, k);
    } else {
        assert forall|i: int| 0 <= i < ls.len() implies !value_line(#[trigger] ls[i], n2) by {
            if value_line(ls[i], n2) {
                lemma_first_value_exists(ls, n2, i);
            }
        }
        lemma_get_lines_none(ls, n2);
        assert forall|i: int| 0 <= i < ms.len() implies !value_line(#[trigger] ms[i], n2) by {
            if i < ls.len() {
                assert(!value_line(ls[i], n2));
            }
        }
        lemma_get_lines_none(ms, n2);
    }
    lemma_get_key_spec_lines(set_ini_key_spec(config, key, value, append), other);
    lemma_get_key_spec_lines(config, other);
}

/// Reading a key over one more line: an earlier value stands, else the new
/// line's when it is an uncommented line for the key.
pub(crate) proof fn lemma_get_lines_push(ls: Seq<Seq<char>>, l: Seq<char>, needle: Seq<char>)
    ensures
        get_lines(ls.push(l), needle) == match get_lines(ls, needle) {
            Some(x) => Some(x),
            None => if value_line(l, needle) {
                Some(line_value(l, needle))
            } else {
                None
            },
        },
{
    let ms = ls.push(l);
    if exists|k: int| first_value_line(ls, needle, k) {
        let k = choose|k: int| first_value_line(ls, needle, k);
        assert(first_value_line(ms, needle, k)) by {
            assert forall|m: int| 0 <= m < k implies !value_line(#[trigger] ms[m], needle) by {
                assert(ms[m] == ls[m]);
            }
        }
        lemma_get_lines_at(ms, needle, k);
        lemma_get_lines_at(ls, needle, k);
    } else {
        assert forall|i: int| 0 <= i < ls.len() implies !value_line(#[trigger] ls[i], needle) by {
            if value_line(ls[i], needle) {
                lemma_first_value_exists(ls, needle, i);
            }
        }
        lemma_get_lines_none(ls, needle);
        if value_line(l, needle) {
            assert(first_value_line(ms, needle, ls.len() as int)) by {
                assert forall|m: int| 0 <= m < ls.len() implies !value_line(#[trigger] ms[m], needle) by {
                    assert(ms[m] == ls[m]);
                }
            }
            lemma_get_lines_at(ms, needle, ls.len() as int);
        } else {
            assert forall|i: int| 0 <= i < ms.len() implies !value_line(#[trigger] ms[i], needle) by {
                if i < ls.len() {
                    assert(ms[i] == ls[i]);
                }
            }
            lemma_get_lines_none(ms, needle);
        }
    }
}

/// The text has a line for `key`, commented out or not.
pub open spec fn has_key_line(config: Seq<char>, key: Seq<char>) -> bool {
    exists|k: int| 0 <= k < lines(config).len() && ini_key_line(#[trigger] lines(config)[k], key + seq!['='])
}

/// A prefix ending in `=` of a text with a carriage return appended is a
/// prefix of the text itself.
proof fn lemma_prefix_before_cr(x: Seq<char>, needle: Seq<char>)
    requires
        needle.len() > 0,
        needle.last() == '=',
        starts_with(x.push('\r'), needle),
    ensures
        starts_with(x, needle),
{
    let y = x.push('\r');
    if needle.len() == y.len() {
        assert(y.subrange(0, needle.len() as int) =~= y);
        assert(needle.last() == y.last());
    }
    assert(x.subrange(0, needle.len() as int) =~= y.subrange(0, needle.len() as int));
}

/// Dropping a trailing carriage return keeps a line a line for the key.
proof fn lemma_strip_cr_key_line(l: Seq<char>, needle: Seq<char>)
    requires
        needle.len() > 0,
        needle.last() == '=',
        ini_key_line(l, needle),
    ensures
        ini_key_line(crate::text::strip_cr(l), needle),
{
    if l.len() > 0 && l.last() == '\r' {
        let l0 = l.drop_last();
        assert(l0.push('\r') =~= l);
        crate::text::lemma_trim_start_push(l0, '\r');
        assert(seq!['\r'].drop_first().len() == 0);
        assert(trim_start(seq!['\r']) == trim_start(seq!['\r'].drop_first()));
        let b0 = trim_start(l0);
        let b = trim_start(l);
        assert(b0.len() > 0);
        assert(b == b0.push('\r'));
        assert(b[0] == b0[0]);
        if b0[0] == '#' {
            let c0 = b0.drop_first();
            assert(b.drop_first() =~= c0.push('\r'));
            crate::text::lemma_trim_start_push(c0, '\r');
            assert(trim_start(c0).len() > 0);
            lemma_prefix_before_cr(trim_start(c0), needle);
        } else {
            lemma_prefix_before_cr(b0, needle);
        }
    }
}

/// Updating one key in place (without appending) keeps every other key's line.
pub proof fn lemma_update_keeps_key_line(config: Seq<char>, key: Seq<char>, value: Seq<char>, other: Seq<char>)
    requires
        plain_key(key),
        !value.contains('\n'),
        !other.contains('='),
        other != key,
        has_key_line(config, other),
    ensures
        has_key_line(set_ini_key_spec(config, key, value, false), other),
{
    let ls = lines(config);
    let needle = key + seq!['='];
    let n2 = other + seq!['='];
    let j = choose|k: int| 0 <= k < ls.len() && ini_key_line(#[trigger] ls[k], n2);
    lemma_set_lines(config, key, value, false);
    let out = set_ini_key_spec(config, key, value, false);
    let ms = set_lines(config, key, value, false);
    if first_ini_key_line(ls, needle, j) {
        lemma_needles_apart(ini_bare(ls[j]), key, other);
    }
    assert(ms[j] == ls[j]);
    assert(n2.last() == '=');
    lemma_strip_cr_key_line(ls[j], n2);
    assert(ini_key_line(lines(out)[j], n2));
}

/// Updating a key that has a line reads back the value set, trimmed.
pub proof fn lemma_ini_get_after_update(config: Seq<char>, key: Seq<char>, value: Seq<char>)
    requires
        plain_key(key),
        !value.contains('\n'),
        has_key_line(config, key),
    ensures
        get_key_spec(set_ini_key_spec(config, key, value, false), key) == Some(trim(value)),
{
    let ls = lines(config);
    let needle = key + seq!['='];
    let j = choose|k: int| 0 <= k < ls.len() && ini_key_line(#[trigger] ls[k], needle);
    lemma_first_exists(ls, needle, j);
    assert(set_ini_key_spec(config, key, value, false) == set_ini_key_spec(config, key, value, true));
    lemma_ini_get_after_set(config, key, value);
}

} // verus!
