//! System-information data and the pure parsing behind fact collection:
//! reading keys out of os-release and meminfo text, and turning the seconds
//! counter of an uptime file into display text. The file reads and native
//! calls that feed these functions live outside the library.

use vstd::prelude::*;

use crate::text::{
    chars_to_string, find_from, find_spec, match_at, match_at_exec, push_all, push_range,
    replace_all, replace_all_exec, split_on, split_on_exec, str_to_chars, views,
};

verus! {

/// Fetched system information: the full fact record the placeholder pass
/// substitutes into a template.
pub struct SystemInfo {
    pub distro_name: String,
    pub distro_id: String,
    pub distro_build_id: String,
    pub username: String,
    pub hostname: String,
    pub shell: String,
    pub kernel: String,
    pub uptime: String,
    pub total_mem: String,
    pub cached_mem: String,
    pub available_mem: String,
    pub used_mem: String,
}

/// Type of information to obtain from the host's native interfaces.
#[derive(PartialEq, Eq, Structural)]
pub enum Type {
    Username,
    HostName,
    KernelVersion,
}

/// `s` begins with `p`.
pub open spec fn starts_with(s: Seq<char>, p: Seq<char>) -> bool {
    match_at(s, p, 0)
}

/// `s` up to (not including) its first newline; all of `s` when none occurs.
pub open spec fn cut_at_newline(s: Seq<char>) -> Seq<char> {
    match find_spec(s, seq!['\n']) {
        None => s,
        Some(i) => s.subrange(0, i),
    }
}

/// `s` with every double-quote character removed.
pub open spec fn remove_quotes(s: Seq<char>) -> Seq<char> {
    replace_all(s, seq!['"'], Seq::empty())
}

/// The text of `osr` between the first occurrence of `key` followed by `=`
/// and the next occurrence of the same pattern (or the end).
pub open spec fn osr_segment(osr: Seq<char>, key: Seq<char>) -> Option<Seq<char>> {
    let pat = key + seq!['='];
    match find_spec(osr, pat) {
        None => None,
        Some(i) => {
            let rest = osr.subrange(i + pat.len() as int, osr.len() as int);
            match find_spec(rest, pat) {
                None => Some(rest),
                Some(j) => Some(rest.subrange(0, j)),
            }
        },
    }
}

/// What `parse_osr_key` returns: the text after `key=`, cut at the first
/// newline, with double-quotes removed; nothing when the key is absent.
pub open spec fn parse_osr_key_spec(osr: Seq<char>, key: Seq<char>) -> Option<Seq<char>> {
    match osr_segment(osr, key) {
        None => None,
        Some(seg) => Some(remove_quotes(cut_at_newline(seg))),
    }
}

/// Parses the given os-release key as a `String`.
pub fn parse_osr_key(os_release: &str, key: &str) -> (r: Option<String>)
    ensures
        match r {
            None => parse_osr_key_spec(os_release@, key@) is None,
            Some(s) => parse_osr_key_spec(os_release@, key@) == Some(s@),
        },
{
    let osr = str_to_chars(os_release);
    let mut pat = str_to_chars(key);
    pat.push('=');
    assert(pat@ =~= key@ + seq!['=']);
    let i = match find_from(&osr, &pat, 0) {
        None => {
            return None;
        },
        Some(i) => i,
    };
    let ol = osr.len();
    assert(i + pat@.len() <= ol);
    let mut rest: Vec<char> = Vec::new();
    push_range(&mut rest, &osr, i + pat.len(), osr.len());
    assert(Seq::<char>::empty() + osr@.subrange(i + pat@.len() as int, osr@.len() as int)
        =~= osr@.subrange(i + pat@.len() as int, osr@.len() as int));
    let seg: Vec<char> = match find_from(&rest, &pat, 0) {
        None => rest,
        Some(j) => {
            let mut s: Vec<char> = Vec::new();
            push_range(&mut s, &rest, 0, j);
            assert(s@ =~= rest@.subrange(0, j as int));
            s
        },
    };
    let mut nl: Vec<char> = Vec::new();
    nl.push('\n');
    assert(nl@ =~= seq!['\n']);
    let cut: Vec<char> = match find_from(&seg, &nl, 0) {
        None => seg,
        Some(k) => {
            let mut s: Vec<char> = Vec::new();
            push_range(&mut s, &seg, 0, k);
            assert(s@ =~= seg@.subrange(0, k as int));
            s
        },
    };
    let mut quote: Vec<char> = Vec::new();
    quote.push('"');
    assert(quote@ =~= seq!['"']);
    let empty: Vec<char> = Vec::new();
    let cleaned = replace_all_exec(&cut, &quote, &empty);
    Some(chars_to_string(&cleaned))
}

/// A character with the Unicode white-space property, as Rust's whitespace
/// handling recognizes it.
pub open spec fn is_wsp(c: char) -> bool {
    c == ' ' || c == '\t' || c == '\n' || c == '\u{b}' || c == '\u{c}' || c == '\r' || c
        == '\u{85}' || c == '\u{a0}' || c == '\u{1680}' || c == '\u{2000}' || c == '\u{2001}' || c
        == '\u{2002}' || c == '\u{2003}' || c == '\u{2004}' || c == '\u{2005}' || c == '\u{2006}'
        || c == '\u{2007}' || c == '\u{2008}' || c == '\u{2009}' || c == '\u{200a}' || c
        == '\u{2028}' || c == '\u{2029}' || c == '\u{202f}' || c == '\u{205f}' || c == '\u{3000}'
}

/// Whether `c` has the Unicode white-space property.
pub fn is_wsp_exec(c: char) -> (b: bool)
    ensures
        b == is_wsp(c),
{
    c == ' ' || c == '\t' || c == '\n' || c == '\u{b}' || c == '\u{c}' || c == '\r' || c
        == '\u{85}' || c == '\u{a0}' || c == '\u{1680}' || c == '\u{2000}' || c == '\u{2001}' || c
        == '\u{2002}' || c == '\u{2003}' || c == '\u{2004}' || c == '\u{2005}' || c == '\u{2006}'
        || c == '\u{2007}' || c == '\u{2008}' || c == '\u{2009}' || c == '\u{200a}' || c
        == '\u{2028}' || c == '\u{2029}' || c == '\u{202f}' || c == '\u{205f}' || c == '\u{3000}'
}

/// The first position at or after `i` whose character is not white space.
pub open spec fn skip_wsp(s: Seq<char>, i: int) -> int
    decreases s.len() - i,
{
    if i >= s.len() || !is_wsp(s[i]) {
        i
    } else {
        skip_wsp(s, i + 1)
    }
}

/// The first position at or after `i` that ends a token: the end of `s` or a
/// white-space character.
pub open spec fn token_end(s: Seq<char>, i: int) -> int
    decreases s.len() - i,
{
    if i >= s.len() || is_wsp(s[i]) {
        i
    } else {
        token_end(s, i + 1)
    }
}

/// The second white-space-separated token of `s`, if it has two.
pub open spec fn second_token(s: Seq<char>) -> Option<Seq<char>> {
    let a0 = skip_wsp(s, 0);
    if a0 >= s.len() {
        None
    } else {
        let e0 = token_end(s, a0);
        let a1 = skip_wsp(s, e0);
        if a1 >= s.len() {
            None
        } else {
            Some(s.subrange(a1, token_end(s, a1)))
        }
    }
}

/// `s` with one trailing carriage return removed, as line splitting does.
pub open spec fn strip_cr(s: Seq<char>) -> Seq<char> {
    if s.len() > 0 && s.last() == '\r' {
        s.drop_last()
    } else {
        s
    }
}

/// The lines of `m`: pieces between newlines, an optional final line ending
/// consumed, one trailing carriage return per line removed.
pub open spec fn text_lines(m: Seq<char>) -> Seq<Seq<char>> {
    let parts = split_on(m, seq!['\n']);
    let trimmed = if m.len() > 0 && m.last() == '\n' {
        parts.drop_last()
    } else {
        parts
    };
    trimmed.map_values(|l: Seq<char>| strip_cr(l))
}

/// The first of `lines` that begins with `key`.
pub open spec fn first_key_line(lines: Seq<Seq<char>>, key: Seq<char>) -> Option<Seq<char>>
    decreases lines.len(),
{
    if lines.len() == 0 {
        None
    } else if starts_with(lines[0], key) {
        Some(lines[0])
    } else {
        first_key_line(lines.drop_first(), key)
    }
}

/// What `parse_minf_key` returns: the second token of the first line that
/// begins with `key`; nothing when no line does, or that line has no second
/// token.
pub open spec fn parse_minf_key_spec(m: Seq<char>, key: Seq<char>) -> Option<Seq<char>> {
    match first_key_line(text_lines(m), key) {
        None => None,
        Some(l) => second_token(l),
    }
}

/// The first non-white-space position at or after `i`.
fn skip_wsp_exec(s: &Vec<char>, i: usize) -> (r: usize)
    requires
        i <= s@.len(),
    ensures
        r == skip_wsp(s@, i as int),
        i <= r <= s@.len(),
{
    let mut j: usize = i;
    loop
        invariant
            i <= j <= s@.len(),
            skip_wsp(s@, i as int) == skip_wsp(s@, j as int),
        decreases s@.len() - j,
    {
        if j >= s.len() {
            return j;
        }
        if !is_wsp_exec(s[j]) {
            return j;
        }
        j += 1;
    }
}

/// The first token-ending position at or after `i`.
fn token_end_exec(s: &Vec<char>, i: usize) -> (r: usize)
    requires
        i <= s@.len(),
    ensures
        r == token_end(s@, i as int),
        i <= r <= s@.len(),
{
    let mut j: usize = i;
    loop
        invariant
            i <= j <= s@.len(),
            token_end(s@, i as int) == token_end(s@, j as int),
        decreases s@.len() - j,
    {
        if j >= s.len() {
            return j;
        }
        if is_wsp_exec(s[j]) {
            return j;
        }
        j += 1;
    }
}

/// The second white-space-separated token of `s`, if it has two.
fn second_token_exec(s: &Vec<char>) -> (r: Option<Vec<char>>)
    ensures
        match r {
            None => second_token(s@) is None,
            Some(v) => second_token(s@) == Some(v@),
        },
{
    let a0 = skip_wsp_exec(s, 0);
    if a0 >= s.len() {
        return None;
    }
    let e0 = token_end_exec(s, a0);
    let a1 = skip_wsp_exec(s, e0);
    if a1 >= s.len() {
        return None;
    }
    let e1 = token_end_exec(s, a1);
    let mut v: Vec<char> = Vec::new();
    push_range(&mut v, s, a1, e1);
    assert(v@ =~= s@.subrange(a1 as int, e1 as int));
    Some(v)
}

/// A split always yields at least one piece.
proof fn lemma_split_nonempty(t: Seq<char>, sep: Seq<char>)
    ensures
        split_on(t, sep).len() >= 1,
    decreases t.len(),
{
}

/// Parses the given MemInfo key as a `String`.
pub fn parse_minf_key(meminfo: &str, key: &str) -> (r: Option<String>)
    ensures
        match r {
            None => parse_minf_key_spec(meminfo@, key@) is None,
            Some(s) => parse_minf_key_spec(meminfo@, key@) == Some(s@),
        },
{
    let m = str_to_chars(meminfo);
    let k = str_to_chars(key);
    let mut nl: Vec<char> = Vec::new();
    nl.push('\n');
    assert(nl@ =~= seq!['\n']);
    let mut lines = split_on_exec(&m, &nl);
    proof {
        lemma_split_nonempty(m@, seq!['\n']);
    }
    if m.len() > 0 && m[m.len() - 1] == '\n' {
        assert(m@.last() == '\n');
        lines.pop();
        assert(views(lines@) =~= split_on(m@, seq!['\n']).drop_last());
    }
    let ghost sl = text_lines(m@);
    proof {
        assert(sl =~= views(lines@).map_values(|l: Seq<char>| strip_cr(l)));
    }
    assert(sl.len() == lines@.len());
    let n = lines.len();
    let mut idx: usize = 0;
    assert(sl.subrange(0, sl.len() as int) =~= sl);
    while idx < n
        invariant
            n == lines@.len(),
            sl.len() == n,
            0 <= idx <= n,
            k@ == key@,
            m@ == meminfo@,
            forall|q: int| 0 <= q < n ==> sl[q] == strip_cr(views(lines@)[q]),
            sl == text_lines(m@),
            first_key_line(sl, key@) == first_key_line(
                sl.subrange(idx as int, sl.len() as int),
                key@,
            ),
        decreases n - idx,
    {
        let line = &lines[idx];
        let mut lc: Vec<char> = Vec::new();
        if line.len() > 0 && line[line.len() - 1] == '\r' {
            push_range(&mut lc, line, 0, line.len() - 1);
            assert(lc@ =~= strip_cr(line@));
        } else {
            push_range(&mut lc, line, 0, line.len());
            assert(lc@ =~= strip_cr(line@));
        }
        assert(lc@ == sl[idx as int]);
        let ghost tail = sl.subrange(idx as int, sl.len() as int);
        assert(tail[0] == sl[idx as int]);
        assert(tail.drop_first() =~= sl.subrange(idx + 1, sl.len() as int));
        if match_at_exec(&lc, &k, 0) {
            assert(first_key_line(sl, key@) == Some(lc@));
            match second_token_exec(&lc) {
                None => {
                    return None;
                },
                Some(tok) => {
                    return Some(chars_to_string(&tok));
                },
            }
        }
        idx += 1;
    }
    assert(sl.subrange(idx as int, sl.len() as int) =~= Seq::<Seq<char>>::empty());
    None
}

/// The decimal digit character for `d`.
pub open spec fn dec_digit(d: int) -> char {
    ((48 + d) as u8) as char
}

/// The decimal digits of `n`, most significant first, no padding.
pub open spec fn dec_nat(n: nat) -> Seq<char>
    decreases n,
{
    if n < 10 {
        seq![dec_digit(n as int)]
    } else {
        dec_nat(n / 10).push(dec_digit((n % 10) as int))
    }
}

/// The decimal digits of `n`.
pub fn u32_dec(n: u32) -> (v: Vec<char>)
    ensures
        v@ == dec_nat(n as nat),
    decreases n,
{
    if n < 10 {
        let mut v: Vec<char> = Vec::new();
        v.push(((48 + n) as u8) as char);
        assert(v@ =~= seq![dec_digit(n as int)]);
        v
    } else {
        let mut v = u32_dec(n / 10);
        v.push(((48 + (n % 10)) as u8) as char);
        assert(v@ =~= dec_nat((n / 10) as nat).push(dec_digit((n % 10) as int)));
        v
    }
}

/// The uptime display text for a seconds counter: days, whole hours and
/// leftover minutes, each written only when positive, an hour part always
/// followed by a comma.
pub open spec fn format_uptime_spec(ts: u32) -> Seq<char> {
    let days = ts / 86400;
    let hours = ts / 3600;
    let minutes = (ts % 3600) / 60;
    let dpart = if days > 0 {
        dec_nat(days as nat) + (if days > 1 {
            seq![' ', 'd', 'a', 'y', 's']
        } else {
            seq![' ', 'd', 'a', 'y']
        })
    } else {
        Seq::empty()
    };
    let hpart = if hours > 0 {
        (if days > 0 {
            seq![' ']
        } else {
            Seq::empty()
        }) + dec_nat(hours as nat) + (if hours > 1 {
            seq![' ', 'h', 'o', 'u', 'r', 's']
        } else {
            seq![' ', 'h', 'o', 'u', 'r']
        }) + seq![',']
    } else {
        Seq::empty()
    };
    let mpart = if minutes > 0 {
        (if hours > 0 || days > 0 {
            seq![' ']
        } else {
            Seq::empty()
        }) + dec_nat(minutes as nat) + (if minutes > 1 {
            seq![' ', 'm', 'i', 'n', 'u', 't', 'e', 's']
        } else {
            seq![' ', 'm', 'i', 'n', 'u', 't', 'e']
        })
    } else {
        Seq::empty()
    };
    dpart + hpart + mpart
}

/// Pretty-formats a seconds counter as uptime display text.
/// For example: `1 day 25 hours, 20 minutes`.
#[verifier::rlimit(50)]
pub fn format_uptime(total_seconds: u32) -> (s: String)
    ensures
        s@ == format_uptime_spec(total_seconds),
{
    let days = total_seconds / 86400;
    let hours = total_seconds / 3600;
    let minutes = total_seconds % 3600 / 60;
    let mut v: Vec<char> = Vec::new();

    if days > 0 {
        let dd = u32_dec(days);
        push_all(&mut v, &dd);
        v.push(' ');
        v.push('d');
        v.push('a');
        v.push('y');
        if days > 1 {
            v.push('s');
        }
    }
    let ghost dpart = if days > 0 {
        dec_nat(days as nat) + (if days > 1 {
            seq![' ', 'd', 'a', 'y', 's']
        } else {
            seq![' ', 'd', 'a', 'y']
        })
    } else {
        Seq::<char>::empty()
    };
    assert(v@ =~= dpart);

    if hours > 0 {
        if days > 0 {
            v.push(' ');
        }
        let hd = u32_dec(hours);
        push_all(&mut v, &hd);
        v.push(' ');
        v.push('h');
        v.push('o');
        v.push('u');
        v.push('r');
        if hours > 1 {
            v.push('s');
        }
        v.push(',');
    }
    let ghost hpart = if hours > 0 {
        (if days > 0 {
            seq![' ']
        } else {
            Seq::<char>::empty()
        }) + dec_nat(hours as nat) + (if hours > 1 {
            seq![' ', 'h', 'o', 'u', 'r', 's']
        } else {
            seq![' ', 'h', 'o', 'u', 'r']
        }) + seq![',']
    } else {
        Seq::<char>::empty()
    };
    assert(v@ =~= dpart + hpart);

    if minutes > 0 {
        if hours > 0 || days > 0 {
            v.push(' ');
        }
        let md = u32_dec(minutes);
        push_all(&mut v, &md);
        v.push(' ');
        v.push('m');
        v.push('i');
        v.push('n');
        v.push('u');
        v.push('t');
        v.push('e');
        if minutes > 1 {
            v.push('s');
        }
    }
    assert(v@ =~= format_uptime_spec(total_seconds));
    chars_to_string(&v)
}

/// `c` is a decimal digit.
pub open spec fn is_digit(c: char) -> bool {
    48 <= c as u32 <= 57
}

/// Every character of `s` is a decimal digit.
pub open spec fn all_digits(s: Seq<char>) -> bool {
    forall|i: int| 0 <= i < s.len() ==> is_digit(s[i])
}

/// The value of a digit string, most significant digit first.
pub open spec fn digits_val(s: Seq<char>) -> int
    decreases s.len(),
{
    if s.len() == 0 {
        0
    } else {
        digits_val(s.drop_last()) * 10 + ((s.last() as u32) as int - 48)
    }
}

/// A digit string never has a negative value.
pub proof fn lemma_digits_val_nonneg(s: Seq<char>)
    requires
        all_digits(s),
    ensures
        digits_val(s) >= 0,
    decreases s.len(),
{
    if s.len() > 0 {
        assert(all_digits(s.drop_last()));
        lemma_digits_val_nonneg(s.drop_last());
    }
}

/// How an unsigned decimal parse reads `s`: an optional leading plus sign,
/// then digits whose value fits; anything else (or overflow) reads as zero.
pub open spec fn parse_u32_spec(s: Seq<char>) -> u32 {
    let body = if s.len() > 0 && s[0] == '+' {
        s.drop_first()
    } else {
        s
    };
    if body.len() > 0 && all_digits(body) && digits_val(body) <= u32::MAX {
        digits_val(body) as u32
    } else {
        0
    }
}

/// `s` up to (not including) its first full stop; all of `s` when none.
pub open spec fn uptime_prefix(s: Seq<char>) -> Seq<char> {
    match find_spec(s, seq!['.']) {
        None => s,
        Some(i) => s.subrange(0, i),
    }
}

/// What `parse_uptime_seconds` returns: the whole-seconds field of an uptime
/// file read as a decimal number, zero when it does not parse.
pub open spec fn parse_uptime_spec(s: Seq<char>) -> u32 {
    parse_u32_spec(uptime_prefix(s))
}

/// Reads the whole-seconds count out of uptime-file text: the digits before
/// the first full stop. Text that does not parse as a decimal that fits
/// reads as zero.
pub fn parse_uptime_seconds(content: &str) -> (n: u32)
    ensures
        n == parse_uptime_spec(content@),
{
    let t = str_to_chars(content);
    let mut dot: Vec<char> = Vec::new();
    dot.push('.');
    assert(dot@ =~= seq!['.']);
    let pre: Vec<char> = match find_from(&t, &dot, 0) {
        None => t,
        Some(i) => {
            let mut s: Vec<char> = Vec::new();
            push_range(&mut s, &t, 0, i);
            assert(s@ =~= t@.subrange(0, i as int));
            s
        },
    };
    assert(pre@ == uptime_prefix(content@));
    let body_start: usize = if pre.len() > 0 && pre[0] == '+' {
        1
    } else {
        0
    };
    let ghost body = if pre@.len() > 0 && pre@[0] == '+' {
        pre@.drop_first()
    } else {
        pre@
    };
    assert(body =~= pre@.subrange(body_start as int, pre@.len() as int));
    if pre.len() == body_start {
        return 0;
    }
    let mut acc: u32 = 0;
    let mut ov: bool = false;
    let mut k: usize = body_start;
    assert(pre@.subrange(body_start as int, body_start as int) =~= Seq::<char>::empty());
    while k < pre.len()
        invariant
            body_start <= k <= pre@.len(),
            pre@ == uptime_prefix(content@),
            (body_start as int) == (if pre@.len() > 0 && pre@[0] == '+' {
                1int
            } else {
                0int
            }),
            body == if pre@.len() > 0 && pre@[0] == '+' {
                pre@.drop_first()
            } else {
                pre@
            },
            body.len() > 0,
            body == pre@.subrange(body_start as int, pre@.len() as int),
            all_digits(pre@.subrange(body_start as int, k as int)),
            ov == (digits_val(pre@.subrange(body_start as int, k as int)) > u32::MAX),
            !ov ==> acc == digits_val(pre@.subrange(body_start as int, k as int)),
        decreases pre@.len() - k,
    {
        let ghost prefix = pre@.subrange(body_start as int, k as int);
        let c = pre[k];
        let cv = c as u32;
        if cv < 48 || cv > 57 {
            assert(body[k - body_start] == c);
            assert(!is_digit(c));
            assert(!all_digits(body));
            return 0;
        }
        let d: u32 = cv - 48;
        proof {
            assert(pre@.subrange(body_start as int, k + 1 as int) =~= prefix.push(c));
            assert(prefix.push(c).drop_last() =~= prefix);
            assert(prefix.push(c).last() == c);
            assert(prefix.push(c).len() > 0);
            assert(digits_val(prefix.push(c)) == digits_val(prefix.push(c).drop_last()) * 10 + ((
            prefix.push(c).last() as u32) as int - 48));
            assert(d as int == (c as u32) as int - 48);
            assert(digits_val(prefix.push(c)) == digits_val(prefix) * 10 + d);
            lemma_digits_val_nonneg(prefix);
        }
        if !ov {
            let acc64: u64 = (acc as u64) * 10 + (d as u64);
            if acc64 > 0xFFFF_FFFFu64 {
                ov = true;
            } else {
                acc = acc64 as u32;
            }
        } else {
            assert(digits_val(prefix) > u32::MAX);
            assert(digits_val(prefix) * 10 + d > u32::MAX);
        }
        k += 1;
    }
    assert(pre@.subrange(body_start as int, pre@.len() as int) =~= body);
    if ov {
        return 0;
    }
    acc
}

} // verus!
