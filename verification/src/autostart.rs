//! Starting with the session: whether the desktop entry in the autostart
//! directory is active, and the entry rewritten to turn it on or off.

use vstd::prelude::*;
use crate::desktop::lower_char;
use crate::text::{
    ascii_lower, chars_of, free_of, has_prefix, join_lines, lines, lines_of, push_char, push_chars,
    starts_with, strip_cr, strip_cr_all, trim, trim_of, views,
};

verus! {

/// `s` in ASCII lowercase.
pub open spec fn ascii_lowercase(s: Seq<char>) -> Seq<char> {
    s.map_values(|c: char| ascii_lower(c))
}

/// A line that hides the entry: `Hidden=true`, in any ASCII case, with
/// whitespace around it.
pub open spec fn hides(l: Seq<char>) -> bool {
    ascii_lowercase(trim(l)) == "hidden=true"@
}

/// Whether the entry starts with the session: no line of it hides it.
pub open spec fn spec_autostart_enabled(text: Seq<char>) -> bool {
    forall|i: int| 0 <= i < lines(text).len() ==> !hides(#[trigger] lines(text)[i])
}

/// A line that says whether the entry starts: `Hidden=…` or
/// `X-GNOME-Autostart-enabled=…`, in any ASCII case.
pub open spec fn is_flag(l: Seq<char>) -> bool {
    has_prefix(ascii_lowercase(trim(l)), "hidden="@) || has_prefix(
        ascii_lowercase(trim(l)),
        "x-gnome-autostart-enabled="@,
    )
}

/// The lines of `ls` that are not such flags, in order.
pub open spec fn keep_lines(ls: Seq<Seq<char>>) -> Seq<Seq<char>>
    decreases ls.len(),
{
    if ls.len() == 0 {
        seq![]
    } else {
        let rest = keep_lines(ls.drop_last());
        if is_flag(ls.last()) {
            rest
        } else {
            rest.push(ls.last())
        }
    }
}

/// The flags that turn the entry on or off.
pub open spec fn flag_lines(on: bool) -> Seq<Seq<char>> {
    if on {
        seq!["X-GNOME-Autostart-enabled=true"@]
    } else {
        seq!["Hidden=true"@, "X-GNOME-Autostart-enabled=false"@]
    }
}

/// The entry turned on or off: its other lines, then the flags, each line
/// ended by a line feed.
pub open spec fn spec_set_autostart(text: Seq<char>, on: bool) -> Seq<char> {
    join_lines(keep_lines(lines(text)) + flag_lines(on))
}

fn lower_of(v: &[char]) -> (r: Vec<char>)
    ensures
        r@ == ascii_lowercase(v@),
{
    let mut r: Vec<char> = Vec::new();
    let mut i: usize = 0;
    while i < v.len()
        invariant
            i <= v@.len(),
            r@ == ascii_lowercase(v@.take(i as int)),
        decreases v@.len() - i,
    {
        r.push(lower_char(v[i]));
        i = i + 1;
        assert(r@ =~= ascii_lowercase(v@.take(i as int)));
    }
    assert(v@.take(v@.len() as int) =~= v@);
    r
}

fn is_hiding(l: &[char]) -> (b: bool)
    ensures
        b == hides(l@),
{
    let low = lower_of(trim_of(l).as_slice());
    crate::text::same_chars_str(low.as_slice(), "hidden=true")
}

fn is_flag_line(l: &[char]) -> (b: bool)
    ensures
        b == is_flag(l@),
{
    let low = lower_of(trim_of(l).as_slice());
    starts_with(low.as_slice(), chars_of("hidden=").as_slice()) || starts_with(
        low.as_slice(),
        chars_of("x-gnome-autostart-enabled=").as_slice(),
    )
}

/// Whether the autostart entry `text` starts with the session (see
/// `spec_autostart_enabled`).
pub fn autostart_enabled(text: &str) -> (b: bool)
    ensures
        b == spec_autostart_enabled(text@),
{
    let ls = lines_of(chars_of(text).as_slice());
    let mut i: usize = 0;
    while i < ls.len()
        invariant
            i <= ls@.len(),
            views(ls@) == lines(text@),
            forall|k: int| 0 <= k < i ==> !hides(#[trigger] lines(text@)[k]),
        decreases ls@.len() - i,
    {
        assert(views(ls@)[i as int] == ls@[i as int]@);
        if is_hiding(ls[i].as_slice()) {
            return false;
        }
        i = i + 1;
    }
    true
}

fn push_line(s: &mut String, l: &str)
    ensures
        final(s)@ == old(s)@ + l@.push('\n'),
{
    crate::text::push_str_of(s, l);
    push_char(s, '\n');
    assert(final(s)@ =~= old(s)@ + l@.push('\n'));
}

/// The autostart entry `text` turned on or off (see `spec_set_autostart`).
pub fn set_autostart(text: &str, on: bool) -> (r: String)
    ensures
        r@ == spec_set_autostart(text@, on),
{
    let ls = lines_of(chars_of(text).as_slice());
    let ghost lv = views(ls@);
    let mut r = String::new();
    let mut i: usize = 0;
    assert(lv.take(0) =~= Seq::<Seq<char>>::empty());
    while i < ls.len()
        invariant
            i <= ls@.len(),
            lv == views(ls@),
            r@ == join_lines(keep_lines(lv.take(i as int))),
        decreases ls@.len() - i,
    {
        let l = ls[i].as_slice();
        assert(lv.take(i + 1).drop_last() =~= lv.take(i as int));
        assert(lv.take(i + 1).last() == l@);
        if !is_flag_line(l) {
            let ghost k = keep_lines(lv.take(i as int));
            push_chars(&mut r, l);
            push_char(&mut r, '\n');
            assert(k.push(l@).drop_last() =~= k);
            assert(r@ =~= join_lines(k.push(l@)));
        }
        i = i + 1;
    }
    assert(lv.take(ls@.len() as int) =~= lv);
    let ghost kept = keep_lines(lv);
    let ghost x = kept + flag_lines(on);
    if on {
        push_line(&mut r, "X-GNOME-Autostart-enabled=true");
        assert(x.drop_last() =~= kept);
        assert(x.last() == "X-GNOME-Autostart-enabled=true"@);
        assert(join_lines(x) == join_lines(kept) + "X-GNOME-Autostart-enabled=true"@.push('\n'));
    } else {
        push_line(&mut r, "Hidden=true");
        push_line(&mut r, "X-GNOME-Autostart-enabled=false");
        let ghost y = kept.push("Hidden=true"@);
        assert(x.drop_last() =~= y);
        assert(x.last() == "X-GNOME-Autostart-enabled=false"@);
        assert(y.drop_last() =~= kept);
        assert(join_lines(y) == join_lines(kept) + "Hidden=true"@.push('\n'));
        assert(join_lines(x) == join_lines(y) + "X-GNOME-Autostart-enabled=false"@.push('\n'));
    }
    r
}

/// The lines kept are lines of the entry and are not flags.
proof fn lemma_keep_lines(ls: Seq<Seq<char>>)
    requires
        forall|i: int| 0 <= i < ls.len() ==> free_of(#[trigger] ls[i], '\n'),
    ensures
        forall|k: int|
            0 <= k < keep_lines(ls).len() ==> free_of(#[trigger] keep_lines(ls)[k], '\n') && !is_flag(
                keep_lines(ls)[k],
            ),
    decreases ls.len(),
{
    if ls.len() > 0 {
        let init = ls.drop_last();
        assert forall|i: int| 0 <= i < init.len() implies free_of(#[trigger] init[i], '\n') by {
            assert(init[i] == ls[i]);
        }
        lemma_keep_lines(init);
        assert(free_of(ls.last(), '\n')) by {
            assert(ls.last() == ls[ls.len() - 1]);
        }
        let rest = keep_lines(init);
        if !is_flag(ls.last()) {
            let k = keep_lines(ls);
            assert(k == rest.push(ls.last()));
            assert forall|j: int| 0 <= j < k.len() implies free_of(#[trigger] k[j], '\n') && !is_flag(
                k[j],
            ) by {
                if j < rest.len() {
                    assert(k[j] == rest[j]);
                }
            }
        }
    }
}

/// A trailing carriage return does not change whether a line hides the
/// entry.
proof fn lemma_hides_strip_cr(l: Seq<char>)
    ensures
        hides(strip_cr(l)) == hides(l),
{
    if l.len() > 0 && l.last() == '\r' {
        crate::text::lemma_trim_drop_ws(l);
    }
}

/// A line that hides the entry is a flag.
proof fn lemma_hiding_is_flag(l: Seq<char>)
    ensures
        hides(l) ==> is_flag(l),
{
    if hides(l) {
        reveal_strlit("hidden=true");
        reveal_strlit("hidden=");
        assert("hidden=true"@.take(7) =~= "hidden="@);
    }
}

/// What the flag lines say.
proof fn lemma_flag_lines(on: bool)
    ensures
        forall|i: int| 0 <= i < flag_lines(on).len() ==> free_of(#[trigger] flag_lines(on)[i], '\n'),
        on ==> !hides(flag_lines(on)[0]),
        !on ==> hides(flag_lines(on)[0]),
{
    reveal_strlit("X-GNOME-Autostart-enabled=true");
    reveal_strlit("X-GNOME-Autostart-enabled=false");
    reveal_strlit("Hidden=true");
    reveal_strlit("hidden=true");
    let on_line = "X-GNOME-Autostart-enabled=true"@;
    let hidden = "Hidden=true"@;
    crate::text::lemma_trim_id(on_line);
    crate::text::lemma_trim_id(hidden);
    assert(ascii_lowercase(trim(on_line)).len() == 30);
    assert(ascii_lowercase(hidden) =~= "hidden=true"@);
    assert(free_of("X-GNOME-Autostart-enabled=false"@, '\n'));
}

/// The autostart switch reads back what it was set to: once the entry is
/// rewritten on, it starts with the session; once rewritten off, it does
/// not, whatever the entry held before.
pub proof fn lemma_autostart_reads_back(text: Seq<char>, on: bool)
    ensures
        spec_autostart_enabled(spec_set_autostart(text, on)) == on,
{
    let ls = lines(text);
    crate::text::lemma_lines_free(text);
    lemma_keep_lines(ls);
    lemma_flag_lines(on);
    let kept = keep_lines(ls);
    let x = kept + flag_lines(on);
    assert forall|i: int| 0 <= i < x.len() implies free_of(#[trigger] x[i], '\n') by {
        if i < kept.len() {
            assert(x[i] == kept[i]);
        } else {
            assert(x[i] == flag_lines(on)[i - kept.len()]);
        }
    }
    crate::text::lemma_lines_join_lines(x);
    let out = lines(join_lines(x));
    assert(out == strip_cr_all(x));
    if on {
        assert forall|i: int| 0 <= i < out.len() implies !hides(#[trigger] out[i]) by {
            lemma_hides_strip_cr(x[i]);
            assert(out[i] == strip_cr(x[i]));
            if i < kept.len() {
                assert(x[i] == kept[i]);
                lemma_hiding_is_flag(kept[i]);
            } else {
                assert(x[i] == flag_lines(on)[0]);
            }
        }
    } else {
        let i = kept.len() as int;
        assert(x[i] == flag_lines(on)[0]);
        lemma_hides_strip_cr(x[i]);
        assert(out[i] == strip_cr(x[i]));
        assert(hides(out[i]));
    }
}

} // verus!
