//! Reading the output of `xrandr --query`, for the second screen on X11.

use vstd::prelude::*;
use crate::text::{
    chars_of, decimal, drop_empty, drop_empty_of, first_with_prefix, first_with_prefix_of, lines,
    lines_of, parse_u32, parse_u32_of, push_char, push_decimal, same_chars_str, second_piece,
    second_piece_of, split_chars, split_chars_any, split_on, split_on_any, string_of, views, words,
    words_of,
};

verus! {

/// The output named on an `xrandr` line when that output is disconnected
/// and shows no active mode (`WxH+X+Y`) after the word `disconnected`.
pub open spec fn free_output(l: Seq<char>) -> Option<Seq<char>> {
    let w = words(l);
    if w.len() >= 2 && w[1] == "disconnected"@ && !(w.len() >= 3 && w[2].contains('+')
        && w[2].contains('x')) {
        Some(w[0])
    } else {
        None
    }
}

/// The free outputs named on the lines `ls`, in order.
pub open spec fn free_outputs(ls: Seq<Seq<char>>) -> Seq<Seq<char>>
    decreases ls.len(),
{
    if ls.len() == 0 {
        seq![]
    } else {
        let r = free_outputs(ls.drop_last());
        match free_output(ls.last()) {
            Some(n) => r.push(n),
            None => r,
        }
    }
}

/// Whether `c` occurs in `v`.
fn has_char(v: &[char], c: char) -> (b: bool)
    ensures
        b == v@.contains(c),
{
    let mut i: usize = 0;
    while i < v.len()
        invariant
            i <= v@.len(),
            forall|m: int| 0 <= m < i ==> v@[m] != c,
        decreases v@.len() - i,
    {
        if v[i] == c {
            assert(v@[i as int] == c);
            return true;
        }
        i = i + 1;
    }
    false
}

/// The disconnected outputs that `xrandr --query` lists without an active
/// mode: the connectors free to carry a virtual monitor.
pub fn parse_x11_disconnected(query: &str) -> (names: Vec<String>)
    ensures
        names@.map_values(|n: String| n@) == free_outputs(lines(query@)),
{
    let q = chars_of(query);
    let ls = lines_of(q.as_slice());
    let ghost lv = views(ls@);
    let mut out: Vec<String> = Vec::new();
    let mut i: usize = 0;
    assert(lv.take(0) =~= Seq::<Seq<char>>::empty());
    while i < ls.len()
        invariant
            i <= ls@.len(),
            lv == views(ls@),
            out@.map_values(|n: String| n@) == free_outputs(lv.take(i as int)),
        decreases ls@.len() - i,
    {
        let w = words_of(ls[i].as_slice());
        assert(lv.take(i + 1).drop_last() =~= lv.take(i as int));
        assert(lv.take(i + 1).last() == ls@[i as int]@);
        if w.len() >= 2 && same_chars_str(w[1].as_slice(), "disconnected") {
            let active = w.len() >= 3 && has_char(w[2].as_slice(), '+') && has_char(
                w[2].as_slice(),
                'x',
            );
            if !active {
                let name = string_of(w[0].as_slice());
                let ghost before = out@.map_values(|n: String| n@);
                out.push(name);
                assert(out@.map_values(|n: String| n@) =~= before.push(name@));
            }
        }
        i = i + 1;
    }
    assert(lv.take(ls@.len() as int) =~= lv);
    out
}

/// The position of output `out` shown in `xrandr --query` with mode
/// `width`x`height`: on the first line that begins with the output's name
/// and a space, the first word that begins with `WxH+`, read as
/// `WxH+X+Y`.
pub open spec fn output_pos(q: Seq<char>, out: Seq<char>, width: u32, height: u32) -> Option<
    (u32, u32),
> {
    match first_with_prefix(lines(q), out.push(' ')) {
        None => None,
        Some(line) => {
            let g = (decimal(width as nat).push('x') + decimal(height as nat)).push('+');
            match first_with_prefix(words(line), g) {
                None => None,
                Some(tok) => {
                    let parts = split_on(tok, '+');
                    if parts.len() >= 3 {
                        match (parse_u32(parts[1]), parse_u32(parts[2])) {
                            (Some(x), Some(y)) => Some((x, y)),
                            _ => None,
                        }
                    } else {
                        None
                    }
                },
            }
        },
    }
}

/// Where `xrandr` placed output `out` running at `width`x`height`.
pub fn parse_x11_output_pos(query: &str, out: &str, width: u32, height: u32) -> (r: Option<
    (u32, u32),
>)
    ensures
        r == output_pos(query@, out@, width, height),
{
    let q = chars_of(query);
    let ls = lines_of(q.as_slice());
    let mut p = chars_of(out);
    p.push(' ');
    let li = match first_with_prefix_of(ls.as_slice(), p.as_slice()) {
        Some(i) => i,
        None => {
            return None;
        },
    };
    let mut gs = String::new();
    push_decimal(&mut gs, width as u64);
    push_char(&mut gs, 'x');
    push_decimal(&mut gs, height as u64);
    push_char(&mut gs, '+');
    let g = chars_of(gs.as_str());
    assert(g@ =~= (decimal(width as nat).push('x') + decimal(height as nat)).push('+'));
    let w = words_of(ls[li].as_slice());
    let wi = match first_with_prefix_of(w.as_slice(), g.as_slice()) {
        Some(i) => i,
        None => {
            return None;
        },
    };
    let parts = split_chars(w[wi].as_slice(), '+');
    if parts.len() < 3 {
        return None;
    }
    assert(parts@[1]@ == split_on(w@[wi as int]@, '+')[1]);
    assert(parts@[2]@ == split_on(w@[wi as int]@, '+')[2]);
    let x = match parse_u32_of(parts[1].as_slice()) {
        Some(x) => x,
        None => {
            return None;
        },
    };
    let y = match parse_u32_of(parts[2].as_slice()) {
        Some(y) => y,
        None => {
            return None;
        },
    };
    Some((x, y))
}

/// The current size of the X screen, read from the `Screen N: ... current
/// W x H, ...` line of `xrandr --query`.
pub open spec fn screen_size(q: Seq<char>) -> Option<(u32, u32)> {
    match first_with_prefix(lines(q), "Screen "@) {
        None => None,
        Some(line) => match second_piece(line, "current "@) {
            None => None,
            Some(cur) => {
                let t = drop_empty(split_on_any(cur, seq![' ', ',']));
                if t.len() >= 3 && t[1] == "x"@ {
                    match (parse_u32(t[0]), parse_u32(t[2])) {
                        (Some(w), Some(h)) => Some((w, h)),
                        _ => None,
                    }
                } else {
                    None
                }
            },
        },
    }
}

/// The current size of the X screen.
pub fn parse_x11_screen_size(query: &str) -> (r: Option<(u32, u32)>)
    ensures
        r == screen_size(query@),
{
    let q = chars_of(query);
    let ls = lines_of(q.as_slice());
    let screen = chars_of("Screen ");
    let li = match first_with_prefix_of(ls.as_slice(), screen.as_slice()) {
        Some(i) => i,
        None => {
            return None;
        },
    };
    let current = chars_of("current ");
    proof {
        reveal_strlit("current ");
    }
    let cur = match second_piece_of(ls[li].as_slice(), current.as_slice()) {
        Some(c) => c,
        None => {
            return None;
        },
    };
    let seps = vec![' ', ','];
    assert(seps@ =~= seq![' ', ',']);
    let t = drop_empty_of(split_chars_any(cur.as_slice(), seps.as_slice()));
    if t.len() < 3 || !same_chars_str(t[1].as_slice(), "x") {
        return None;
    }
    let w = match parse_u32_of(t[0].as_slice()) {
        Some(w) => w,
        None => {
            return None;
        },
    };
    let h = match parse_u32_of(t[2].as_slice()) {
        Some(h) => h,
        None => {
            return None;
        },
    };
    Some((w, h))
}

} // verus!
