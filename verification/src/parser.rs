//! The colour markup pass. Markup of the form `rgb["<text>", <r>, <g>, <b>]`
//! is replaced by `<text>` wrapped in the ANSI 24-bit foreground escape for
//! the triple. `<text>` runs to the first double-quote and may not span a
//! line; each channel is one to three decimal digits and must fit in a byte.
//! Markup that starts with the opening token but does not fit the grammar is
//! a fatal template error.

use colorful::Colorful;

use vstd::prelude::*;

use crate::info::{all_digits, dec_nat, digits_val, is_digit};
use crate::resolver::TemplateError;
use crate::text::{
    chars_to_string, find_from, find_from_spec, lemma_find_from_spec, push_all, push_range,
    str_to_chars,
};

verus! {

/// White space as the markup grammar skips it between a comma and a digit.
pub open spec fn is_sp(c: char) -> bool {
    c == ' ' || c == '\t' || c == '\n' || c == '\r' || c == '\u{b}' || c == '\u{c}'
}

/// The first position at or after `i` whose character is not grammar white
/// space.
pub open spec fn skip_sp(t: Seq<char>, i: int) -> int
    decreases t.len() - i,
{
    if i >= t.len() || !is_sp(t[i]) {
        i
    } else {
        skip_sp(t, i + 1)
    }
}

/// The first position at or after `i` whose character is not a decimal
/// digit.
pub open spec fn digit_end(t: Seq<char>, i: int) -> int
    decreases t.len() - i,
{
    if i >= t.len() || !is_digit(t[i]) {
        i
    } else {
        digit_end(t, i + 1)
    }
}

/// `skip_sp` stays between its start and the end of the text.
pub proof fn lemma_skip_sp_bounds(t: Seq<char>, i: int)
    requires
        0 <= i <= t.len(),
    ensures
        i <= skip_sp(t, i) <= t.len(),
    decreases t.len() - i,
{
    if !(i >= t.len() || !is_sp(t[i])) {
        lemma_skip_sp_bounds(t, i + 1);
    }
}

/// `digit_end` stays between its start and the end of the text, and every
/// character it passed over is a digit.
pub proof fn lemma_digit_end_bounds(t: Seq<char>, i: int)
    requires
        0 <= i <= t.len(),
    ensures
        i <= digit_end(t, i) <= t.len(),
        forall|k: int| i <= k < digit_end(t, i) ==> is_digit(t[k]),
    decreases t.len() - i,
{
    if !(i >= t.len() || !is_digit(t[i])) {
        lemma_digit_end_bounds(t, i + 1);
    }
}

/// One colour channel read at or after `i`: white space, then one to three
/// digits. Yields the position after the digits and the decimal value.
pub open spec fn parse_channel(t: Seq<char>, i: int) -> Option<(int, int)> {
    let s = skip_sp(t, i);
    let e = digit_end(t, s);
    if e - s < 1 || e - s > 3 {
        None
    } else {
        Some((e, digits_val(t.subrange(s, e))))
    }
}

/// One whole colour directive whose opening token `rgb["` stands at `i`:
/// the text capture, the three channels and the closing bracket. Yields the
/// position after the closing bracket, the text and the channel values, or
/// says why the span is a fatal template error.
pub open spec fn parse_directive(t: Seq<char>, i: int) -> Result<
    (int, Seq<char>, int, int, int),
    TemplateError,
> {
    let ts = i + 5;
    match find_from_spec(t, seq!['"'], ts) {
        None => Err(TemplateError::MalformedColor),
        Some(q) => {
            let nl = find_from_spec(t, seq!['\n'], ts);
            if nl is Some && nl->Some_0 < q {
                Err(TemplateError::MalformedColor)
            } else if q + 1 >= t.len() || t[q + 1] != ',' {
                Err(TemplateError::MalformedColor)
            } else {
                match parse_channel(t, q + 2) {
                    None => Err(TemplateError::MalformedColor),
                    Some((e1, v1)) => {
                        if e1 >= t.len() || t[e1] != ',' {
                            Err(TemplateError::MalformedColor)
                        } else {
                            match parse_channel(t, e1 + 1) {
                                None => Err(TemplateError::MalformedColor),
                                Some((e2, v2)) => {
                                    if e2 >= t.len() || t[e2] != ',' {
                                        Err(TemplateError::MalformedColor)
                                    } else {
                                        match parse_channel(t, e2 + 1) {
                                            None => Err(TemplateError::MalformedColor),
                                            Some((e3, v3)) => {
                                                if e3 >= t.len() || t[e3] != ']' {
                                                    Err(TemplateError::MalformedColor)
                                                } else if v1 > 255 || v2 > 255 || v3 > 255 {
                                                    Err(TemplateError::ColorOutOfRange)
                                                } else {
                                                    Ok(
                                                        (
                                                            e3 + 1,
                                                            t.subrange(ts, q),
                                                            v1,
                                                            v2,
                                                            v3,
                                                        ),
                                                    )
                                                }
                                            },
                                        }
                                    }
                                },
                            }
                        }
                    },
                }
            }
        },
    }
}

/// A directive that parses ends after its opening token and within the text.
pub proof fn lemma_parse_directive_bounds(t: Seq<char>, i: int)
    requires
        0 <= i,
        i + 5 <= t.len(),
        parse_directive(t, i) is Ok,
    ensures
        i + 5 < parse_directive(t, i)->Ok_0.0 <= t.len(),
{
    let ts = i + 5;
    lemma_find_from_spec(t, seq!['"'], ts);
    let q = find_from_spec(t, seq!['"'], ts)->Some_0;
    lemma_skip_sp_bounds(t, q + 2);
    let s1 = skip_sp(t, q + 2);
    lemma_digit_end_bounds(t, s1);
    let e1 = digit_end(t, s1);
    lemma_skip_sp_bounds(t, e1 + 1);
    let s2 = skip_sp(t, e1 + 1);
    lemma_digit_end_bounds(t, s2);
    let e2 = digit_end(t, s2);
    lemma_skip_sp_bounds(t, e2 + 1);
    let s3 = skip_sp(t, e2 + 1);
    lemma_digit_end_bounds(t, s3);
}

/// The ANSI rendering of `text` in the 24-bit foreground colour `(r, g, b)`:
/// the escape that selects the colour, the text, then the reset escape.
pub open spec fn colorize_spec(text: Seq<char>, r: u8, g: u8, b: u8) -> Seq<char> {
    "\u{1b}[38;2;"@ + dec_nat(r as nat) + ";"@ + dec_nat(g as nat) + ";"@ + dec_nat(b as nat)
        + "m"@ + text + "\u{1b}[0m"@
}

/// What the colour pass makes of `t` from position `i` on: every directive
/// replaced by its colorized text, or the error of the leftmost span that
/// violates the grammar.
pub open spec fn color_pass_from(t: Seq<char>, i: int) -> Result<Seq<char>, TemplateError>
    decreases t.len() - i,
    when 0 <= i <= t.len()
{
    match find_from_spec(t, "rgb[\""@, i) {
        None => Ok(t.subrange(i, t.len() as int)),
        Some(j) => {
            proof {
                reveal_strlit("rgb[\"");
                lemma_find_from_spec(t, "rgb[\""@, i);
            }
            match parse_directive(t, j) {
                Err(e) => Err(e),
                Ok(parsed) => {
                    proof {
                        lemma_parse_directive_bounds(t, j);
                    }
                    match color_pass_from(t, parsed.0) {
                        Err(e) => Err(e),
                        Ok(rest) => Ok(
                            t.subrange(i, j) + colorize_spec(
                                parsed.1,
                                parsed.2 as u8,
                                parsed.3 as u8,
                                parsed.4 as u8,
                            ) + rest,
                        ),
                    }
                },
            }
        },
    }
}

/// What the colour pass makes of a whole template.
pub open spec fn color_pass_spec(t: Seq<char>) -> Result<Seq<char>, TemplateError> {
    color_pass_from(t, 0)
}

/// At most three digits read as a decimal stay under a thousand.
proof fn lemma_digits_val_small(s: Seq<char>)
    requires
        all_digits(s),
        s.len() <= 3,
    ensures
        0 <= digits_val(s),
        s.len() <= 1 ==> digits_val(s) <= 9,
        s.len() <= 2 ==> digits_val(s) <= 99,
        digits_val(s) <= 999,
    decreases s.len(),
{
    if s.len() > 0 {
        assert(all_digits(s.drop_last()));
        lemma_digits_val_small(s.drop_last());
        assert(is_digit(s.last()));
    }
}

/// The first position at or after `i` that is not grammar white space.
fn skip_sp_exec(t: &Vec<char>, i: usize) -> (r: usize)
    requires
        i <= t@.len(),
    ensures
        r == skip_sp(t@, i as int),
        i <= r <= t@.len(),
{
    let mut j: usize = i;
    loop
        invariant
            i <= j <= t@.len(),
            skip_sp(t@, i as int) == skip_sp(t@, j as int),
        decreases t@.len() - j,
    {
        if j >= t.len() {
            return j;
        }
        let c = t[j];
        if !(c == ' ' || c == '\t' || c == '\n' || c == '\r' || c == '\u{b}' || c == '\u{c}') {
            assert(!is_sp(t@[j as int]));
            return j;
        }
        j += 1;
    }
}

/// The first position at or after `i` that is not a decimal digit.
fn digit_end_exec(t: &Vec<char>, i: usize) -> (r: usize)
    requires
        i <= t@.len(),
    ensures
        r == digit_end(t@, i as int),
        i <= r <= t@.len(),
{
    let mut j: usize = i;
    loop
        invariant
            i <= j <= t@.len(),
            digit_end(t@, i as int) == digit_end(t@, j as int),
        decreases t@.len() - j,
    {
        if j >= t.len() {
            return j;
        }
        let cv = t[j] as u32;
        if cv < 48 || cv > 57 {
            assert(!is_digit(t@[j as int]));
            return j;
        }
        assert(is_digit(t@[j as int]));
        j += 1;
    }
}

/// One colour channel read at or after `i`.
fn parse_channel_exec(t: &Vec<char>, i: usize) -> (res: Option<(usize, u32)>)
    requires
        i <= t@.len(),
    ensures
        match res {
            None => parse_channel(t@, i as int) is None,
            Some(p) => parse_channel(t@, i as int) == Some((p.0 as int, p.1 as int)) && i <= p.0
                <= t@.len() && p.1 <= 999,
        },
{
    let s = skip_sp_exec(t, i);
    let e = digit_end_exec(t, s);
    proof {
        lemma_digit_end_bounds(t@, s as int);
    }
    if e - s < 1 || e - s > 3 {
        return None;
    }
    let ghost whole = t@.subrange(s as int, e as int);
    assert(all_digits(whole));
    let mut v: u32 = 0;
    let mut k: usize = s;
    assert(t@.subrange(s as int, s as int) =~= Seq::<char>::empty());
    while k < e
        invariant
            s <= k <= e <= t@.len(),
            e - s <= 3,
            forall|m: int| s <= m < e ==> is_digit(t@[m]),
            v as int == digits_val(t@.subrange(s as int, k as int)),
            v <= 999,
        decreases e - k,
    {
        let ghost prefix = t@.subrange(s as int, k as int);
        let c = t[k];
        let cv = c as u32;
        assert(is_digit(c));
        let d: u32 = cv - 48;
        proof {
            assert(all_digits(prefix));
            lemma_digits_val_small(prefix);
            assert(prefix.len() <= 2);
            assert(t@.subrange(s as int, k + 1 as int) =~= prefix.push(c));
            assert(prefix.push(c).drop_last() =~= prefix);
            assert(prefix.push(c).last() == c);
            assert(digits_val(prefix.push(c)) == digits_val(prefix) * 10 + ((c as u32) as int
                - 48));
        }
        v = v * 10 + d;
        k += 1;
    }
    assert(t@.subrange(s as int, e as int) =~= whole);
    Some((e, v))
}

/// Relies on colorful's `Colorful::color` with an `RGB` colour, whose
/// display writes the 24-bit foreground escape `ESC[38;2;<r>;<g>;<b>m`, the
/// text, then the reset escape `ESC[0m`.
#[verifier::external_body]
fn colorize(text: &Vec<char>, r: u8, g: u8, b: u8) -> (res: Vec<char>)
    ensures
        res@ == colorize_spec(text@, r, g, b),
{
    let s: String = text.iter().collect();
    s.color(colorful::RGB::new(r, g, b)).to_string().chars().collect()
}

/// One whole colour directive whose opening token stands at `j`.
fn parse_directive_exec(t: &Vec<char>, j: usize) -> (res: Result<
    (usize, Vec<char>, u8, u8, u8),
    TemplateError,
>)
    requires
        j + 5 <= t@.len(),
    ensures
        match res {
            Ok(p) => parse_directive(t@, j as int) == Ok::<(int, Seq<char>, int, int, int),
                TemplateError,
            >((p.0 as int, p.1@, p.2 as int, p.3 as int, p.4 as int)) && j + 5 < p.0 <= t@.len(),
            Err(e) => parse_directive(t@, j as int) == Err::<(int, Seq<char>, int, int, int),
                TemplateError,
            >(e),
        },
{
    let tl = t.len();
    assert(j + 5 <= tl);
    let ts = j + 5;
    let mut quote: Vec<char> = Vec::new();
    quote.push('"');
    assert(quote@ =~= seq!['"']);
    let q = match find_from(t, &quote, ts) {
        None => {
            return Err(TemplateError::MalformedColor);
        },
        Some(q) => q,
    };
    proof {
        lemma_find_from_spec(t@, quote@, ts as int);
        assert(ts <= q && q + 1 <= t@.len());
    }
    let mut nl: Vec<char> = Vec::new();
    nl.push('\n');
    assert(nl@ =~= seq!['\n']);
    match find_from(t, &nl, ts) {
        Some(p) => {
            if p < q {
                return Err(TemplateError::MalformedColor);
            }
        },
        None => {},
    }
    if q + 1 >= tl {
        return Err(TemplateError::MalformedColor);
    }
    if t[q + 1] != ',' {
        return Err(TemplateError::MalformedColor);
    }
    let (e1, v1) = match parse_channel_exec(t, q + 2) {
        None => {
            return Err(TemplateError::MalformedColor);
        },
        Some(p) => p,
    };
    if e1 >= tl || t[e1] != ',' {
        return Err(TemplateError::MalformedColor);
    }
    let (e2, v2) = match parse_channel_exec(t, e1 + 1) {
        None => {
            return Err(TemplateError::MalformedColor);
        },
        Some(p) => p,
    };
    if e2 >= tl || t[e2] != ',' {
        return Err(TemplateError::MalformedColor);
    }
    let (e3, v3) = match parse_channel_exec(t, e2 + 1) {
        None => {
            return Err(TemplateError::MalformedColor);
        },
        Some(p) => p,
    };
    if e3 >= tl || t[e3] != ']' {
        return Err(TemplateError::MalformedColor);
    }
    if v1 > 255 || v2 > 255 || v3 > 255 {
        return Err(TemplateError::ColorOutOfRange);
    }
    let mut text: Vec<char> = Vec::new();
    push_range(&mut text, t, ts, q);
    assert(text@ =~= t@.subrange(ts as int, q as int));
    Ok((e3 + 1, text, v1 as u8, v2 as u8, v3 as u8))
}

/// Parses the rgb colour markup of a template and renders it.
pub struct Parser;

impl Parser {
    /// Parses RGB colour markup in `cfg` and renders each span as its text
    /// in that colour. For example, `rgb["Hello, I'm red!", 255, 0, 0]`
    /// becomes `Hello, I'm red!` in red. On a fatal template error `cfg` is
    /// left untouched.
    pub fn parse_color(cfg: &mut String) -> (r: Result<(), TemplateError>)
        ensures
            match r {
                Ok(_) => color_pass_spec(old(cfg)@) == Ok::<Seq<char>, TemplateError>(
                    final(cfg)@,
                ),
                Err(e) => color_pass_spec(old(cfg)@) == Err::<Seq<char>, TemplateError>(e)
                    && final(cfg)@ == old(cfg)@,
            },
    {
        let t = str_to_chars(cfg.as_str());
        let mut open: Vec<char> = Vec::new();
        open.push('r');
        open.push('g');
        open.push('b');
        open.push('[');
        open.push('"');
        proof {
            reveal_strlit("rgb[\"");
            assert(open@ =~= "rgb[\""@);
        }
        let mut acc: Vec<char> = Vec::new();
        let mut cursor: usize = 0;
        proof {
            if color_pass_from(t@, 0) is Ok {
                assert(acc@ + color_pass_from(t@, 0)->Ok_0 =~= color_pass_from(t@, 0)->Ok_0);
            }
        }
        loop
            invariant
                t@ == old(cfg)@,
                cfg@ == old(cfg)@,
                open@ == "rgb[\""@,
                open@.len() == 5,
                0 <= cursor <= t@.len(),
                color_pass_from(t@, 0) == match color_pass_from(t@, cursor as int) {
                    Ok(rest) => Ok::<Seq<char>, TemplateError>(acc@ + rest),
                    Err(e) => Err(e),
                },
            decreases t@.len() - cursor,
        {
            match find_from(&t, &open, cursor) {
                None => {
                    let ghost tail = t@.subrange(cursor as int, t@.len() as int);
                    assert(color_pass_from(t@, cursor as int) == Ok::<Seq<char>, TemplateError>(
                        tail,
                    ));
                    push_range(&mut acc, &t, cursor, t.len());
                    assert(color_pass_from(t@, 0) == Ok::<Seq<char>, TemplateError>(acc@));
                    *cfg = chars_to_string(&acc);
                    return Ok(());
                },
                Some(j) => {
                    proof {
                        lemma_find_from_spec(t@, open@, cursor as int);
                        assert(cursor <= j && j + 5 <= t@.len());
                    }
                    match parse_directive_exec(&t, j) {
                        Err(e) => {
                            assert(color_pass_from(t@, cursor as int) == Err::<
                                Seq<char>,
                                TemplateError,
                            >(e));
                            return Err(e);
                        },
                        Ok((end, text, cr, cg, cb)) => {
                            let colored = colorize(&text, cr, cg, cb);
                            let ghost old_acc = acc@;
                            push_range(&mut acc, &t, cursor, j);
                            push_all(&mut acc, &colored);
                            proof {
                                let middle = t@.subrange(cursor as int, j as int) + colorize_spec(
                                    text@,
                                    cr,
                                    cg,
                                    cb,
                                );
                                assert(acc@ =~= old_acc + middle);
                                if color_pass_from(t@, end as int) is Ok {
                                    let rest = color_pass_from(t@, end as int)->Ok_0;
                                    assert(color_pass_from(t@, cursor as int) == Ok::<
                                        Seq<char>,
                                        TemplateError,
                                    >(middle + rest));
                                    assert(old_acc + (middle + rest) =~= (old_acc + middle)
                                        + rest);
                                } else {
                                    assert(color_pass_from(t@, cursor as int) == color_pass_from(
                                        t@,
                                        end as int,
                                    ));
                                }
                            }
                            cursor = end;
                        },
                    }
                },
            }
        }
    }
}

} // verus!
