//! The managed PATH block in shell rc files: adding it once, taking it out.
use crate::text::{
    ends_with, ends_with_str, has_char, join_lines, lemma_join_lines_append, lemma_lines_join, lines, lines_from, plain_line,
    push_char, split_lines, strip_cr, str_eq, trim, trim_end, trim_start, trim_str, is_ws,
};
use vstd::prelude::*;

verus! {

pub const SHELL_BEGIN: &'static str = "# >>> laragon >>>";

pub const SHELL_END: &'static str = "# <<< laragon <<<";

/// The line between the markers.
pub const SHELL_PATH_LINE: &'static str = "export PATH=\"$HOME/laragon/bin:$PATH\"";

pub const SHELL_BLOCK: &'static str = "# >>> laragon >>>\nexport PATH=\"$HOME/laragon/bin:$PATH\"\n# <<< laragon <<<\n";

/// `s` with every trailing `/` removed.
pub open spec fn trim_slashes(s: Seq<char>) -> Seq<char>
    decreases s.len(),
{
    if s.len() > 0 && s.last() == '/' {
        trim_slashes(s.drop_last())
    } else {
        s
    }
}

/// `.zshrc` for a zsh login shell, else `.bashrc`.
pub fn rc_filename_for_shell(shell: &str) -> (r: &'static str)
    ensures
        r@ == if ends_with(trim_slashes(shell@), "zsh"@) { ".zshrc"@ } else { ".bashrc"@ },
{
    let v = crate::text::chars_of(shell);
    let mut n = v.len();
    assert(v@.take(n as int) == v@);
    while n > 0 && v[n - 1] == '/'
        invariant
            n <= v@.len(),
            v@ == shell@,
            trim_slashes(shell@) == trim_slashes(v@.take(n as int)),
        decreases n,
    {
        assert(v@.take(n as int).drop_last() == v@.take(n - 1));
        assert(v@.take(n as int).last() == v@[n - 1]);
        n = n - 1;
    }
    assert(!(n > 0 && v@.take(n as int).last() == '/'));
    let t = crate::text::string_of(&v, 0, n);
    assert(t@ == v@.take(n as int));
    if ends_with_str(t.as_str(), "zsh") {
        ".zshrc"
    } else {
        ".bashrc"
    }
}

/// A line that is one of the markers once trimmed.
pub open spec fn is_marker(l: Seq<char>) -> bool {
    trim(l) == SHELL_BEGIN@ || trim(l) == SHELL_END@
}

/// The lines kept when the managed block is taken out: from a begin marker
/// to an end marker nothing is kept, the markers included.
pub open spec fn kept_from(ls: Seq<Seq<char>>, skipping: bool) -> Seq<Seq<char>>
    decreases ls.len(),
{
    if ls.len() == 0 {
        seq![]
    } else {
        let t = trim(ls[0]);
        if t == SHELL_BEGIN@ {
            kept_from(ls.drop_first(), true)
        } else if t == SHELL_END@ {
            kept_from(ls.drop_first(), false)
        } else if skipping {
            kept_from(ls.drop_first(), true)
        } else {
            seq![ls[0]] + kept_from(ls.drop_first(), false)
        }
    }
}

pub open spec fn spec_remove_block(c: Seq<char>) -> Seq<char> {
    join_lines(kept_from(lines(c), false))
}

pub open spec fn spec_apply_block(c: Seq<char>) -> Seq<char> {
    let b = spec_remove_block(c);
    (if b.len() > 0 && b.last() != '\n' { b.push('\n') } else { b }) + SHELL_BLOCK@
}

/// Strip the managed block (markers and what lies between) from `contents`;
/// every other line is kept, each ended by a line feed.
pub fn remove_shell_block(contents: &str) -> (r: String)
    ensures
        r@ == spec_remove_block(contents@),
{
    let ls = split_lines(contents);
    let ghost lv = ls@.map_values(|l: String| l@);
    let mut out = String::new();
    let mut skipping = false;
    let mut i: usize = 0;
    assert(lv.skip(0) == lv);
    while i < ls.len()
        invariant
            0 <= i <= ls@.len(),
            lv == ls@.map_values(|l: String| l@),
            lv == lines(contents@),
            join_lines(kept_from(lv, false)) == out@ + join_lines(kept_from(lv.skip(i as int), skipping)),
        decreases ls@.len() - i,
    {
        let ghost rest = lv.skip(i as int);
        assert(rest[0] == ls@[i as int]@);
        assert(rest.drop_first() == lv.skip(i + 1));
        let t = trim_str(ls[i].as_str());
        if str_eq(t.as_str(), SHELL_BEGIN) {
            skipping = true;
        } else if str_eq(t.as_str(), SHELL_END) {
            skipping = false;
        } else if !skipping {
            let ghost before = out@;
            out.append(ls[i].as_str());
            push_char(&mut out, '\n');
            proof {
                let k = kept_from(lv.skip(i + 1), false);
                assert((seq![rest[0]] + k)[0] == rest[0]);
                assert((seq![rest[0]] + k).drop_first() == k);
                assert(out@ =~= before + rest[0] + seq!['\n']);
            }
        }
        i = i + 1;
    }
    assert(lv.skip(i as int).len() == 0);
    out
}

/// `contents` with the managed block appended exactly once.
pub fn apply_shell_block(contents: &str) -> (r: String)
    ensures
        r@ == spec_apply_block(contents@),
{
    let mut base = remove_shell_block(contents);
    let bv = crate::text::chars_of(base.as_str());
    if bv.len() > 0 && bv[bv.len() - 1] != '\n' {
        push_char(&mut base, '\n');
    }
    base.append(SHELL_BLOCK);
    base
}

// ---------------------------------------------------------------------------
// Applying twice is applying once
// ---------------------------------------------------------------------------

proof fn lemma_kept_unmarked(ls: Seq<Seq<char>>, skipping: bool)
    ensures
        forall|i: int| 0 <= i < kept_from(ls, skipping).len() ==> !is_marker(#[trigger] kept_from(ls, skipping)[i]),
    decreases ls.len(),
{
    if ls.len() > 0 {
        lemma_kept_unmarked(ls.drop_first(), true);
        lemma_kept_unmarked(ls.drop_first(), false);
        let t = trim(ls[0]);
        let r = kept_from(ls, skipping);
        if t == SHELL_BEGIN@ {
            assert(r == kept_from(ls.drop_first(), true));
        } else if t == SHELL_END@ {
            assert(r == kept_from(ls.drop_first(), false));
        } else if skipping {
            assert(r == kept_from(ls.drop_first(), true));
        } else {
            let k = kept_from(ls.drop_first(), false);
            assert(r == seq![ls[0]] + k);
            assert forall|i: int| 0 <= i < r.len() implies !is_marker(#[trigger] r[i]) by {
                if i > 0 {
                    assert(r[i] == k[i - 1]);
                } else {
                    assert(r[i] == ls[0]);
                }
            }
        }
    }
}

proof fn lemma_kept_prefix(p: Seq<Seq<char>>, q: Seq<Seq<char>>)
    requires
        forall|i: int| 0 <= i < p.len() ==> !is_marker(#[trigger] p[i]),
    ensures
        kept_from(p + q, false) == p + kept_from(q, false),
    decreases p.len(),
{
    if p.len() == 0 {
        assert(p + q == q);
    } else {
        assert((p + q)[0] == p[0]);
        assert((p + q).drop_first() == p.drop_first() + q);
        assert(!is_marker(p[0]));
        assert forall|i: int| 0 <= i < p.drop_first().len() implies !is_marker(#[trigger] p.drop_first()[i]) by {
            assert(p.drop_first()[i] == p[i + 1]);
        }
        lemma_kept_prefix(p.drop_first(), q);
        assert(seq![p[0]] + (p.drop_first() + kept_from(q, false)) == p + kept_from(q, false));
    }
}

proof fn lemma_block_lines()
    ensures
        SHELL_BLOCK@ == join_lines(seq![SHELL_BEGIN@, SHELL_PATH_LINE@, SHELL_END@]),
        plain_line(SHELL_BEGIN@),
        plain_line(SHELL_PATH_LINE@),
        plain_line(SHELL_END@),
        kept_from(seq![SHELL_BEGIN@, SHELL_PATH_LINE@, SHELL_END@], false) == Seq::<Seq<char>>::empty(),
{
    reveal_strlit("# >>> laragon >>>");
    reveal_strlit("# <<< laragon <<<");
    reveal_strlit("export PATH=\"$HOME/laragon/bin:$PATH\"");
    reveal_strlit("# >>> laragon >>>\nexport PATH=\"$HOME/laragon/bin:$PATH\"\n# <<< laragon <<<\n");
    let b = SHELL_BEGIN@;
    let x = SHELL_PATH_LINE@;
    let e = SHELL_END@;
    let bl = seq![b, x, e];
    reveal_with_fuel(join_lines, 4);
    reveal_with_fuel(kept_from, 4);
    assert(join_lines(bl.drop_first().drop_first().drop_first()) == Seq::<char>::empty());
    assert(SHELL_BLOCK@ =~= join_lines(bl));
    assert(!crate::text::has_char(b, '\n'));
    assert(!crate::text::has_char(x, '\n'));
    assert(!crate::text::has_char(e, '\n'));
    assert(trim_start(b) == b);
    assert(trim_end(b) == b);
    assert(trim_start(e) == e);
    assert(trim_end(e) == e);
    assert(trim_start(x) == x);
    assert(trim_end(x) == x);
    assert(b != e);
    assert(x != b);
    assert(x != e);
    assert(bl.drop_first()[0] == x);
    assert(bl.drop_first().drop_first()[0] == e);
    assert(bl.drop_first().drop_first().drop_first().len() == 0);
}

/// Applying the block to text that already carries it changes nothing: the
/// block stands in the result exactly once. The lines kept outside the block
/// must read back unchanged (no last line that ends in a carriage return
/// without a line feed).
pub proof fn lemma_apply_idempotent(c: Seq<char>)
    requires
        forall|i: int| 0 <= i < kept_from(lines(c), false).len() ==> plain_line(#[trigger] kept_from(lines(c), false)[i]),
    ensures
        spec_apply_block(spec_apply_block(c)) == spec_apply_block(c),
        spec_remove_block(spec_apply_block(c)) == spec_remove_block(c),
{
    let k = kept_from(lines(c), false);
    let bl = seq![SHELL_BEGIN@, SHELL_PATH_LINE@, SHELL_END@];
    lemma_block_lines();
    lemma_kept_unmarked(lines(c), false);
    let b = join_lines(k);
    // the removed text is empty or ends with a line feed
    reveal_with_fuel(join_lines, 2);
    if k.len() > 0 {
        lemma_join_lines_append(k.drop_last(), seq![k.last()]);
        assert(k.drop_last() + seq![k.last()] == k);
        assert(join_lines(seq![k.last()]) == k.last() + seq!['\n'] + join_lines(Seq::<Seq<char>>::empty()));
        assert(b.last() == '\n');
    } else {
        assert(b.len() == 0);
    }
    assert(spec_apply_block(c) == b + SHELL_BLOCK@);
    lemma_join_lines_append(k, bl);
    assert(spec_apply_block(c) == join_lines(k + bl));
    assert forall|i: int| 0 <= i < (k + bl).len() implies plain_line(#[trigger] (k + bl)[i]) by {
        if i < k.len() {
            assert((k + bl)[i] == k[i]);
        } else {
            assert((k + bl)[i] == bl[i - k.len()]);
        }
    }
    lemma_lines_join(k + bl);
    lemma_kept_prefix(k, bl);
    assert(k + Seq::<Seq<char>>::empty() == k);
    assert(spec_remove_block(spec_apply_block(c)) == b);
}

/// Removing the block twice is removing it once. The lines kept outside the
/// block must read back unchanged (no last line that ends in a carriage
/// return without a line feed).
pub proof fn lemma_remove_idempotent(c: Seq<char>)
    requires
        forall|i: int| 0 <= i < kept_from(lines(c), false).len() ==> plain_line(#[trigger] kept_from(lines(c), false)[i]),
    ensures
        spec_remove_block(spec_remove_block(c)) == spec_remove_block(c),
{
    let k = kept_from(lines(c), false);
    lemma_kept_unmarked(lines(c), false);
    lemma_lines_join(k);
    lemma_kept_prefix(k, Seq::<Seq<char>>::empty());
    assert(k + Seq::<Seq<char>>::empty() == k);
}

/// Lines read from text without carriage returns hold none.
proof fn lemma_lines_from_no_cr(s: Seq<char>, cur: Seq<char>)
    requires
        !has_char(cur, '\r'),
        !has_char(s, '\r'),
    ensures
        forall|i: int| 0 <= i < lines_from(s, cur).len() ==> !has_char(#[trigger] lines_from(s, cur)[i], '\r'),
    decreases s.len(),
{
    if s.len() == 0 {
        if cur.len() > 0 {
            assert forall|i: int| 0 <= i < lines_from(s, cur).len() implies !has_char(#[trigger] lines_from(s, cur)[i], '\r') by {
                assert(lines_from(s, cur)[i] == cur);
            }
        } else {
            assert(lines_from(s, cur) == Seq::<Seq<char>>::empty());
        }
    } else {
        assert(!has_char(s.drop_first(), '\r')) by {
            if has_char(s.drop_first(), '\r') {
                let i = choose|i: int| 0 <= i < s.drop_first().len() && s.drop_first()[i] == '\r';
                assert(s[i + 1] == '\r');
            }
        }
        if s[0] == '\n' {
            lemma_lines_from_no_cr(s.drop_first(), seq![]);
            let rest = lines_from(s.drop_first(), seq![]);
            assert(lines_from(s, cur) == seq![strip_cr(cur)] + rest);
            assert(!has_char(strip_cr(cur), '\r')) by {
                if has_char(strip_cr(cur), '\r') {
                    let i = choose|i: int| 0 <= i < strip_cr(cur).len() && strip_cr(cur)[i] == '\r';
                    assert(cur[i] == '\r');
                }
            }
            assert forall|i: int| 0 <= i < lines_from(s, cur).len() implies !has_char(#[trigger] lines_from(s, cur)[i], '\r') by {
                if i > 0 {
                    assert(lines_from(s, cur)[i] == rest[i - 1]);
                } else {
                    assert(lines_from(s, cur)[i] == strip_cr(cur));
                }
            }
        } else {
            assert(s[0] != '\r');
            assert(!has_char(cur.push(s[0]), '\r')) by {
                if has_char(cur.push(s[0]), '\r') {
                    let i = choose|i: int| 0 <= i < cur.push(s[0]).len() && cur.push(s[0])[i] == '\r';
                    if i < cur.len() {
                        assert(cur[i] == '\r');
                    }
                }
            }
            lemma_lines_from_no_cr(s.drop_first(), cur.push(s[0]));
            assert(lines_from(s, cur) == lines_from(s.drop_first(), cur.push(s[0])));
        }
    }
}

/// The kept lines are among the lines: what holds of every line holds of
/// every kept one (here: being plain).
proof fn lemma_kept_plain(ls: Seq<Seq<char>>, skipping: bool)
    requires
        forall|i: int| 0 <= i < ls.len() ==> plain_line(#[trigger] ls[i]),
    ensures
        forall|i: int| 0 <= i < kept_from(ls, skipping).len() ==> plain_line(#[trigger] kept_from(ls, skipping)[i]),
    decreases ls.len(),
{
    if ls.len() > 0 {
        assert forall|i: int| 0 <= i < ls.drop_first().len() implies plain_line(#[trigger] ls.drop_first()[i]) by {
            assert(ls.drop_first()[i] == ls[i + 1]);
        }
        lemma_kept_plain(ls.drop_first(), true);
        lemma_kept_plain(ls.drop_first(), false);
        let t = trim(ls[0]);
        let r = kept_from(ls, skipping);
        if !(t == SHELL_BEGIN@) && !(t == SHELL_END@) && !skipping {
            let k = kept_from(ls.drop_first(), false);
            assert(r == seq![ls[0]] + k);
            assert forall|i: int| 0 <= i < r.len() implies plain_line(#[trigger] r[i]) by {
                if i > 0 {
                    assert(r[i] == k[i - 1]);
                } else {
                    assert(plain_line(ls[0]));
                }
            }
        } else if t == SHELL_BEGIN@ {
            assert(r == kept_from(ls.drop_first(), true));
        } else if t == SHELL_END@ {
            assert(r == kept_from(ls.drop_first(), false));
        } else {
            assert(r == kept_from(ls.drop_first(), true));
        }
    }
}

/// For text without carriage returns, the block laws hold outright:
/// applying twice is applying once, removing after applying gives what
/// removing alone gives, and removing twice is removing once.
pub proof fn lemma_block_laws_without_cr(c: Seq<char>)
    requires
        !has_char(c, '\r'),
    ensures
        spec_apply_block(spec_apply_block(c)) == spec_apply_block(c),
        spec_remove_block(spec_apply_block(c)) == spec_remove_block(c),
        spec_remove_block(spec_remove_block(c)) == spec_remove_block(c),
{
    let ls = lines(c);
    lemma_lines_from_no_cr(c, seq![]);
    crate::text::lemma_lines_from_no_lf(c, seq![]);
    assert forall|i: int| 0 <= i < ls.len() implies plain_line(#[trigger] ls[i]) by {
        assert(!has_char(ls[i], '\r'));
        if ls[i].len() > 0 {
            assert(ls[i][ls[i].len() - 1] != '\r');
        }
    }
    lemma_kept_plain(ls, false);
    lemma_apply_idempotent(c);
    lemma_remove_idempotent(c);
}

} // verus!
