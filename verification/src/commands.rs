//! The small text formats of the window helpers: the id that `xdotool
//! search` prints, the geometry that `xdotool getwindowgeometry --shell`
//! prints, the saved window position, and the keyboard-mapping lookup of
//! the global hotkey.

use vstd::prelude::*;
use crate::numbers::{
    all_digits, decimal, digit_char, digit_value, digits_value, parse_i32, parse_i32_spec, parse_u32, parse_u32_spec, push_signed,
    signed_decimal, unsigned_body,
};
use crate::text::{chars_of, is_whitespace, is_ws, string_of, trim, trim_bounds};
use crate::version::{lemma_split_on_nonempty, split_on};

verus! {

// ── Words ────────────────────────────────────────────────────────────────────

/// The maximal runs of non-white-space characters of `s`, in order
/// (`str::split_whitespace`).
pub open spec fn words(s: Seq<char>) -> Seq<Seq<char>>
    decreases s.len(),
{
    if s.len() == 0 {
        Seq::empty()
    } else {
        let prev = words(s.drop_last());
        let c = s.last();
        if is_ws(c) {
            prev
        } else if s.len() >= 2 && !is_ws(s[s.len() - 2]) && prev.len() > 0 {
            prev.update(prev.len() - 1, prev.last().push(c))
        } else {
            prev.push(seq![c])
        }
    }
}

/// Splits `v` into its white-space separated words.
pub fn words_of(v: &Vec<char>) -> (r: Vec<Vec<char>>)
    ensures
        r@.len() == words(v@).len(),
        forall|k: int| 0 <= k < r@.len() ==> #[trigger] r@[k]@ == words(v@)[k],
{
    let n = v.len();
    let mut out: Vec<Vec<char>> = Vec::new();
    let mut i: usize = 0;
    assert(v@.take(0) =~= Seq::<char>::empty());
    while i < n
        invariant
            i <= n == v.len(),
            out@.len() == words(v@.take(i as int)).len(),
            forall|k: int| 0 <= k < out@.len() ==> #[trigger] out@[k]@ == words(v@.take(i as int))[k],
        decreases n - i,
    {
        let c = v[i];
        let ghost t = v@.take(i + 1);
        let ghost prev = words(v@.take(i as int));
        proof {
            assert(t.drop_last() =~= v@.take(i as int));
            assert(t.last() == c);
        }
        if is_whitespace(c) {
        } else if i >= 1 && !is_whitespace(v[i - 1]) && out.len() > 0 {
            assert(t[t.len() - 2] == v@[i - 1]);
            let ghost before = out@;
            let mut last = out.pop().unwrap();
            last.push(c);
            out.push(last);
            proof {
                let next = words(t);
                assert(next == prev.update(prev.len() - 1, prev.last().push(c)));
                assert forall|k: int| 0 <= k < out@.len() implies #[trigger] out@[k]@ == next[k] by {
                    if k < out@.len() - 1 {
                        assert(out@[k] == before[k]);
                    }
                }
            }
        } else {
            proof {
                if i >= 1 {
                    assert(t[t.len() - 2] == v@[i - 1]);
                }
            }
            let mut w: Vec<char> = Vec::new();
            w.push(c);
            out.push(w);
            assert(w@ =~= seq![c]);
        }
        i += 1;
    }
    assert(v@.take(n as int) =~= v@);
    out
}

/// The first white-space separated word of `s` (the window id that
/// `xdotool search` prints first), if any.
pub open spec fn first_word(s: Seq<char>) -> Option<Seq<char>> {
    if words(s).len() > 0 {
        Some(words(s)[0])
    } else {
        None
    }
}

/// The first word of `text`.
pub fn window_id(text: &str) -> (r: Option<String>)
    ensures
        match r {
            Some(w) => first_word(text@) == Some(w@),
            None => first_word(text@) is None,
        },
{
    let v = chars_of(text);
    let ws = words_of(&v);
    if ws.len() > 0 {
        Some(string_of(&ws[0]))
    } else {
        None
    }
}

// ── Saved window position ────────────────────────────────────────────────────

/// The saved form of a window position: `x`, a space, `y`.
pub open spec fn window_pos_text(x: i32, y: i32) -> Seq<char> {
    signed_decimal(x as int) + seq![' '] + signed_decimal(y as int)
}

/// Reads a saved window position: the first two words, each an `i32`.
pub open spec fn parse_window_pos_spec(s: Seq<char>) -> Option<(i32, i32)> {
    let w = words(s);
    if w.len() >= 2 {
        match (parse_i32_spec(w[0]), parse_i32_spec(w[1])) {
            (Some(x), Some(y)) => Some((x, y)),
            _ => None,
        }
    } else {
        None
    }
}

/// The text saved for a window position.
pub fn format_window_pos(x: i32, y: i32) -> (s: String)
    ensures
        s@ == window_pos_text(x, y),
{
    let mut s = String::new();
    push_signed(&mut s, x as i64);
    crate::text::push_char(&mut s, ' ');
    push_signed(&mut s, y as i64);
    assert(s@ =~= window_pos_text(x, y));
    s
}

/// Reads a saved window position.
pub fn parse_window_pos(content: &str) -> (r: Option<(i32, i32)>)
    ensures
        r == parse_window_pos_spec(content@),
{
    let v = chars_of(content);
    let ws = words_of(&v);
    if ws.len() < 2 {
        return None;
    }
    let x = parse_i32(&ws[0]);
    let y = parse_i32(&ws[1]);
    match (x, y) {
        (Some(x), Some(y)) => Some((x, y)),
        _ => None,
    }
}

// ── Window geometry ──────────────────────────────────────────────────────────

/// `p` without one trailing carriage return.
pub open spec fn strip_cr(p: Seq<char>) -> Seq<char> {
    if p.len() > 0 && p.last() == '\r' {
        p.drop_last()
    } else {
        p
    }
}

/// The lines of `s` (`str::lines`): split at `\n`, a `\r` before a `\n`
/// dropped, and no line after a final `\n`.
pub open spec fn lines(s: Seq<char>) -> Seq<Seq<char>> {
    let parts = split_on(s, '\n');
    let ended = parts.take(parts.len() - 1).map_values(|p: Seq<char>| strip_cr(p));
    if parts.last().len() == 0 {
        ended
    } else {
        ended.push(parts.last())
    }
}

/// `l` starts with `prefix`.
pub open spec fn starts_with(l: Seq<char>, prefix: Seq<char>) -> bool {
    prefix.len() <= l.len() && l.take(prefix.len() as int) == prefix
}

/// The `X=` and `Y=` values read from the lines `ls`: each line with such
/// a prefix sets its value to what the rest parses to as an `i32`
/// (possibly nothing), so the last such line wins.
pub open spec fn geometry_fields(ls: Seq<Seq<char>>) -> (Option<i32>, Option<i32>)
    decreases ls.len(),
{
    if ls.len() == 0 {
        (None, None)
    } else {
        let prev = geometry_fields(ls.drop_last());
        let l = ls.last();
        (
            if starts_with(l, seq!['X', '=']) {
                parse_i32_spec(l.skip(2))
            } else {
                prev.0
            },
            if starts_with(l, seq!['Y', '=']) {
                parse_i32_spec(l.skip(2))
            } else {
                prev.1
            },
        )
    }
}

/// The window position in the output of `xdotool getwindowgeometry
/// --shell`, when both coordinates are present.
pub open spec fn geometry_position(text: Seq<char>) -> Option<(i32, i32)> {
    match geometry_fields(lines(text)) {
        (Some(x), Some(y)) => Some((x, y)),
        _ => None,
    }
}

/// What a line contributes: `Some(v)` when it starts with `key` and `=`,
/// with `v` the parse of the rest.
fn keyed_value(line: &Vec<char>, key: char) -> (r: Option<Option<i32>>)
    ensures
        match r {
            Some(v) => starts_with(line@, seq![key, '=']) && v == parse_i32_spec(line@.skip(2)),
            None => !starts_with(line@, seq![key, '=']),
        },
{
    if line.len() >= 2 && line[0] == key && line[1] == '=' {
        assert(line@.take(2) =~= seq![key, '=']);
        let mut rest: Vec<char> = Vec::new();
        let mut i: usize = 2;
        while i < line.len()
            invariant
                2 <= i <= line.len(),
                rest@ == line@.subrange(2, i as int),
            decreases line.len() - i,
        {
            rest.push(line[i]);
            assert(rest@ =~= line@.subrange(2, i + 1));
            i += 1;
        }
        assert(rest@ =~= line@.skip(2));
        Some(parse_i32(&rest))
    } else {
        proof {
            if starts_with(line@, seq![key, '=']) {
                assert(line@.take(2)[0] == key);
                assert(line@.take(2)[1] == '=');
            }
        }
        None
    }
}

/// The pieces of `v` between `\n` characters.
fn split_lines_raw(v: &Vec<char>) -> (r: Vec<Vec<char>>)
    ensures
        r@.len() == split_on(v@, '\n').len(),
        forall|k: int| 0 <= k < r@.len() ==> #[trigger] r@[k]@ == split_on(v@, '\n')[k],
{
    let n = v.len();
    let mut out: Vec<Vec<char>> = Vec::new();
    out.push(Vec::new());
    let mut i: usize = 0;
    assert(v@.take(0) =~= Seq::<char>::empty());
    assert(out@[0]@ =~= Seq::<char>::empty());
    while i < n
        invariant
            i <= n == v.len(),
            out@.len() == split_on(v@.take(i as int), '\n').len(),
            forall|k: int| 0 <= k < out@.len() ==> #[trigger] out@[k]@ == split_on(v@.take(i as int), '\n')[k],
        decreases n - i,
    {
        let c = v[i];
        let ghost t = v@.take(i + 1);
        let ghost prev = split_on(v@.take(i as int), '\n');
        proof {
            assert(t.drop_last() =~= v@.take(i as int));
            assert(t.last() == c);
            lemma_split_on_nonempty(v@.take(i as int), '\n');
        }
        if c == '\n' {
            out.push(Vec::new());
            proof {
                assert(out@.last()@ =~= Seq::<char>::empty());
                assert forall|k: int| 0 <= k < out@.len() implies #[trigger] out@[k]@ == split_on(t, '\n')[k] by {}
            }
        } else {
            let ghost before = out@;
            let mut last = out.pop().unwrap();
            last.push(c);
            out.push(last);
            proof {
                let next = split_on(t, '\n');
                assert forall|k: int| 0 <= k < out@.len() - 1 implies out@[k] == before[k] by {}
                assert(next == prev.update(prev.len() - 1, prev.last().push(c)));
                assert forall|k: int| 0 <= k < out@.len() implies #[trigger] out@[k]@ == next[k] by {}
            }
        }
        i += 1;
    }
    assert(v@.take(n as int) =~= v@);
    out
}

/// The window position printed by `xdotool getwindowgeometry --shell`.
pub fn parse_window_geometry(text: &str) -> (r: Option<(i32, i32)>)
    ensures
        r == geometry_position(text@),
{
    let v = chars_of(text);
    let parts = split_lines_raw(&v);
    let ghost ps = split_on(v@, '\n');
    proof {
        lemma_split_on_nonempty(v@, '\n');
    }
    let np = parts.len();
    let ghost ended = ps.take(ps.len() - 1).map_values(|p: Seq<char>| strip_cr(p));
    let mut x: Option<i32> = None;
    let mut y: Option<i32> = None;
    let mut k: usize = 0;
    // every piece but the last ends with a newline
    while k + 1 < np
        invariant
            np == parts@.len() == ps.len() >= 1,
            ps == split_on(v@, '\n'),
            forall|j: int| 0 <= j < np ==> #[trigger] parts@[j]@ == ps[j],
            k + 1 <= np,
            ended == ps.take(ps.len() - 1).map_values(|p: Seq<char>| strip_cr(p)),
            (x, y) == geometry_fields(ended.take(k as int)),
        decreases np - k,
    {
        let piece = &parts[k];
        let mut line: Vec<char> = Vec::new();
        let m = if piece.len() > 0 && piece[piece.len() - 1] == '\r' { piece.len() - 1 } else { piece.len() };
        let mut i: usize = 0;
        while i < m
            invariant
                m <= piece@.len(),
                i <= m,
                line@ == piece@.subrange(0, i as int),
            decreases m - i,
        {
            line.push(piece[i]);
            assert(line@ =~= piece@.subrange(0, i + 1));
            i += 1;
        }
        proof {
            assert(line@ =~= strip_cr(ps[k as int]));
            assert(ended[k as int] == line@);
            assert(ended.take(k + 1).drop_last() =~= ended.take(k as int));
        }
        match keyed_value(&line, 'X') {
            Some(val) => { x = val; },
            None => {},
        }
        match keyed_value(&line, 'Y') {
            Some(val) => { y = val; },
            None => {},
        }
        k += 1;
    }
    proof {
        assert(ended.take(ended.len() as int) =~= ended);
    }
    let last = &parts[np - 1];
    if last.len() > 0 {
        proof {
            let ls = lines(v@);
            assert(ls == ended.push(ps.last()));
            assert(ls.drop_last() =~= ended);
        }
        match keyed_value(last, 'X') {
            Some(val) => { x = val; },
            None => {},
        }
        match keyed_value(last, 'Y') {
            Some(val) => { y = val; },
            None => {},
        }
    }
    match (x, y) {
        (Some(a), Some(b)) => Some((a, b)),
        _ => None,
    }
}

// ── Instance lock ────────────────────────────────────────────────────────────

/// The process id recorded in the instance lock file: its trimmed content
/// read as a `u32`.
pub open spec fn lock_pid_spec(content: Seq<char>) -> Option<u32> {
    parse_u32_spec(trim(content))
}

/// Reads the process id recorded in the instance lock file.
pub fn lock_pid(content: &str) -> (r: Option<u32>)
    ensures
        r == lock_pid_spec(content@),
{
    let v = chars_of(content);
    let (a, b) = trim_bounds(&v);
    let mut t: Vec<char> = Vec::new();
    let mut i = a;
    while i < b
        invariant
            a <= i <= b <= v.len(),
            t@ == v@.subrange(a as int, i as int),
        decreases b - i,
    {
        t.push(v[i]);
        assert(t@ =~= v@.subrange(a as int, i + 1));
        i += 1;
    }
    parse_u32(&t)
}

// ── Hotkey keycode ───────────────────────────────────────────────────────────

/// `i` is the first position of `keysym` in the keyboard mapping.
pub open spec fn first_keysym_at(keysyms: Seq<u32>, keysym: u32, i: int) -> bool {
    &&& 0 <= i < keysyms.len()
    &&& keysyms[i] == keysym
    &&& forall|j: int| 0 <= j < i ==> #[trigger] keysyms[j] != keysym
}

/// The keycode bound to `keysym` in a keyboard mapping that lists
/// `per_keycode` keysyms per keycode starting at `min_keycode`: the keycode
/// of the first group that holds it.
pub fn keycode_for_keysym(keysyms: &Vec<u32>, per_keycode: usize, min_keycode: u8, keysym: u32) -> (r: Option<u8>)
    requires
        per_keycode > 0,
        keysyms@.len() <= per_keycode * (256 - min_keycode),
    ensures
        match r {
            Some(code) => exists|i: int|
                #[trigger] first_keysym_at(keysyms@, keysym, i) && code == min_keycode + i / (per_keycode as int),
            None => forall|i: int| 0 <= i < keysyms@.len() ==> #[trigger] keysyms@[i] != keysym,
        },
{
    let n = keysyms.len();
    let mut i: usize = 0;
    while i < n
        invariant
            n == keysyms@.len(),
            i <= n,
            per_keycode > 0,
            n <= per_keycode * (256 - min_keycode),
            forall|j: int| 0 <= j < i ==> #[trigger] keysyms@[j] != keysym,
        decreases n - i,
    {
        if keysyms[i] == keysym {
            let group = i / per_keycode;
            proof {
                assert(first_keysym_at(keysyms@, keysym, i as int));
                assert(group < 256 - min_keycode) by (nonlinear_arith)
                    requires
                        group == i / per_keycode,
                        i < n,
                        n <= per_keycode * (256 - min_keycode),
                        per_keycode > 0,
                ;
            }
            return Some(min_keycode + group as u8);
        }
        i += 1;
    }
    None
}

// ── The saved position reads back as written ────────────────────────────────

/// `s` has no white space.
pub open spec fn no_ws(s: Seq<char>) -> bool {
    forall|i: int| 0 <= i < s.len() ==> !is_ws(#[trigger] s[i])
}

proof fn lemma_words_single(s: Seq<char>)
    requires
        s.len() > 0,
        no_ws(s),
    ensures
        words(s) == seq![s],
    decreases s.len(),
{
    let t = s.drop_last();
    if t.len() > 0 {
        lemma_words_single(t);
        assert(s[s.len() - 2] == t.last());
        assert(t.push(s.last()) =~= s);
    } else {
        assert(words(t) =~= Seq::<Seq<char>>::empty());
        assert(seq![s.last()] =~= s);
    }
}

proof fn lemma_words_pair(a: Seq<char>, b: Seq<char>)
    requires
        a.len() > 0,
        b.len() > 0,
        no_ws(a),
        no_ws(b),
    ensures
        words(a + seq![' '] + b) == seq![a, b],
    decreases b.len(),
{
    let s = a + seq![' '] + b;
    reveal_with_fuel(is_ws, 1);
    assert(is_ws(' '));
    if b.len() == 1 {
        lemma_words_single(a);
        assert(s.drop_last() =~= a + seq![' ']);
        assert((a + seq![' ']).drop_last() =~= a);
        assert(s[s.len() - 2] == ' ');
        assert(seq![b.last()] =~= b);
        assert(words(a + seq![' ']) == words(a));
        assert(words(s) == seq![a].push(seq![b.last()]));
        assert(seq![a].push(b) =~= seq![a, b]);
    } else {
        let b2 = b.drop_last();
        lemma_words_pair(a, b2);
        assert(s.drop_last() =~= a + seq![' '] + b2);
        assert(s[s.len() - 2] == b2.last());
        assert(b2.push(b.last()) =~= b);
        let prev = seq![a, b2];
        assert(words(s) == prev.update(1, b2.push(b.last())));
        assert(prev.update(1, b2.push(b.last())) =~= seq![a, b]);
    }
}

proof fn lemma_decimal_reads_back(n: nat)
    ensures
        decimal(n).len() > 0,
        all_digits(decimal(n)),
        digits_value(decimal(n)) == n,
        no_ws(decimal(n)),
        decimal(n)[0] != '+' && decimal(n)[0] != '-',
    decreases n,
{
    if n < 10 {
        assert(decimal(n) == seq![digit_char(n)]);
        assert(digit_char(n) as u32 == '0' as u32 + n);
        assert(decimal(n).drop_last() =~= Seq::<char>::empty());
        assert(digit_value(digit_char(n)) == n);
        assert(digits_value(Seq::<char>::empty()) == 0);
        assert(decimal(n).last() == digit_char(n));
        assert(digits_value(decimal(n)) == digits_value(decimal(n).drop_last()) * 10 + digit_value(decimal(n).last()));
    } else {
        assert(digit_char(n % 10) as u32 == '0' as u32 + n % 10);
        lemma_decimal_reads_back(n / 10);
        let d = decimal(n / 10);
        assert(decimal(n) == d.push(digit_char(n % 10)));
        assert(decimal(n).drop_last() =~= d);
        assert(decimal(n)[0] == d[0]);
        assert(digit_value(digit_char(n % 10)) == n % 10);
        assert(digits_value(decimal(n)) == digits_value(d) * 10 + n % 10);
        assert((n / 10) * 10 + n % 10 == n) by (nonlinear_arith);
    }
}

proof fn lemma_signed_reads_back(x: i32)
    ensures
        signed_decimal(x as int).len() > 0,
        no_ws(signed_decimal(x as int)),
        parse_i32_spec(signed_decimal(x as int)) == Some(x),
{
    if x < 0 {
        let m = (-(x as int)) as nat;
        lemma_decimal_reads_back(m);
        let s = signed_decimal(x as int);
        assert(s.drop_first() =~= decimal(m));
        assert(s[0] == '-');
    } else {
        lemma_decimal_reads_back(x as nat);
        assert(unsigned_body(signed_decimal(x as int)) == decimal(x as nat));
    }
}

/// A saved window position reads back as the position that was saved.
pub proof fn law_window_pos_roundtrip(x: i32, y: i32)
    ensures
        parse_window_pos_spec(window_pos_text(x, y)) == Some((x, y)),
{
    lemma_signed_reads_back(x);
    lemma_signed_reads_back(y);
    lemma_words_pair(signed_decimal(x as int), signed_decimal(y as int));
}

} // verus!
