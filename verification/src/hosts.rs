//! The managed block of `/etc/hosts`: one `127.0.0.1 <host>` line per site,
//! between two marker lines, replacing any earlier block.
use crate::text::{
    ends_with, ends_with_str, has_char, is_ws, join_lines, lemma_join_lines_append,
    lemma_join_lines_push, lemma_lines_from_no_lf, lemma_lines_join, lemma_trim_end_take,
    lemma_trim_start_skip, lines, plain_line, push_char, split_lines, str_eq, trim, trim_end,
    trim_str,
};
use vstd::prelude::*;

verus! {

pub const HOSTS_BEGIN: &'static str = "# BEGIN laralux";

pub const HOSTS_END: &'static str = "# END laralux";

pub open spec fn host_line(h: Seq<char>) -> Seq<char> {
    "127.0.0.1 "@ + h
}

/// The lines of the managed block.
pub open spec fn block_lines(hosts: Seq<Seq<char>>) -> Seq<Seq<char>> {
    seq![HOSTS_BEGIN@] + hosts.map_values(|h: Seq<char>| host_line(h)) + seq![HOSTS_END@]
}

pub open spec fn spec_render_block(hosts: Seq<Seq<char>>) -> Seq<char> {
    join_lines(block_lines(hosts))
}

/// The lines of `ls` outside managed blocks; `inside` tells whether reading
/// starts within a block.
pub open spec fn kept_from(ls: Seq<Seq<char>>, inside: bool) -> Seq<Seq<char>>
    decreases ls.len(),
{
    if ls.len() == 0 {
        seq![]
    } else if trim(ls[0]) == HOSTS_BEGIN@ {
        kept_from(ls.drop_first(), true)
    } else if trim(ls[0]) == HOSTS_END@ {
        kept_from(ls.drop_first(), false)
    } else if inside {
        kept_from(ls.drop_first(), inside)
    } else {
        seq![ls[0]] + kept_from(ls.drop_first(), inside)
    }
}

/// The lines of a hosts file that are not part of a managed block.
pub open spec fn kept_lines(existing: Seq<char>) -> Seq<Seq<char>> {
    kept_from(lines(existing), false)
}

/// Kept lines, then one blank separator line when there is content that does
/// not already end in a blank line, then the fresh block.
pub open spec fn spec_apply_block(existing: Seq<char>, hosts: Seq<Seq<char>>) -> Seq<char> {
    let k = join_lines(kept_lines(existing));
    let k2 = if k.len() > 0 && !ends_with(k, "\n\n"@) {
        k + seq!['\n']
    } else {
        k
    };
    k2 + spec_render_block(hosts)
}

pub open spec fn views(v: Seq<String>) -> Seq<Seq<char>> {
    v.map_values(|s: String| s@)
}

/// Render the managed block (markers + one mapping line per hostname).
pub fn render_block(hostnames: &[String]) -> (s: String)
    ensures
        s@ == spec_render_block(views(hostnames@)),
{
    let ghost hs = views(hostnames@);
    let mut s = String::new();
    s.append(HOSTS_BEGIN);
    push_char(&mut s, '\n');
    proof {
        lemma_join_lines_push(Seq::<Seq<char>>::empty(), HOSTS_BEGIN@);
        assert(seq![HOSTS_BEGIN@] == Seq::<Seq<char>>::empty().push(HOSTS_BEGIN@));
    }
    let mut i: usize = 0;
    while i < hostnames.len()
        invariant
            0 <= i <= hostnames.len(),
            hs == views(hostnames@),
            s@ == join_lines(seq![HOSTS_BEGIN@] + hs.take(i as int).map_values(|h: Seq<char>| host_line(h))),
        decreases hostnames.len() - i,
    {
        let ghost pre = seq![HOSTS_BEGIN@] + hs.take(i as int).map_values(|h: Seq<char>| host_line(h));
        s.append("127.0.0.1 ");
        s.append(hostnames[i].as_str());
        push_char(&mut s, '\n');
        proof {
            lemma_join_lines_push(pre, host_line(hs[i as int]));
            assert(hs.take(i + 1) == hs.take(i as int).push(hs[i as int]));
            assert(seq![HOSTS_BEGIN@] + hs.take(i + 1).map_values(|h: Seq<char>| host_line(h))
                == pre.push(host_line(hs[i as int])));
            assert(hs[i as int] == hostnames@[i as int]@);
        }
        i = i + 1;
    }
    let ghost pre = seq![HOSTS_BEGIN@] + hs.take(i as int).map_values(|h: Seq<char>| host_line(h));
    s.append(HOSTS_END);
    push_char(&mut s, '\n');
    proof {
        lemma_join_lines_push(pre, HOSTS_END@);
        assert(hs.take(i as int) == hs);
        assert(pre.push(HOSTS_END@) == block_lines(hs));
    }
    s
}

/// Whether `line`, trimmed, equals `marker`.
fn is_marker(line: &str, marker: &str) -> (b: bool)
    ensures
        b == (trim(line@) == marker@),
{
    let t = trim_str(line);
    str_eq(t.as_str(), marker)
}

/// Strip any existing managed block from `existing`, then append a fresh one.
pub fn apply_block(existing: &str, hostnames: &[String]) -> (out: String)
    ensures
        out@ == spec_apply_block(existing@, views(hostnames@)),
{
    let ls = split_lines(existing);
    let ghost all = views(ls@);
    let mut kept: Vec<String> = Vec::new();
    let mut inside = false;
    let mut i: usize = 0;
    assert(all.skip(0) == all);
    while i < ls.len()
        invariant
            0 <= i <= ls.len(),
            all == views(ls@),
            all == lines(existing@),
            views(kept@) + kept_from(all.skip(i as int), inside) == kept_lines(existing@),
        decreases ls.len() - i,
    {
        let ghost rest = all.skip(i as int);
        assert(rest[0] == ls@[i as int]@);
        assert(rest.drop_first() == all.skip(i + 1));
        if is_marker(ls[i].as_str(), HOSTS_BEGIN) {
            inside = true;
        } else if is_marker(ls[i].as_str(), HOSTS_END) {
            inside = false;
        } else if !inside {
            let ghost before = views(kept@);
            kept.push(ls[i].clone());
            assert(views(kept@) == before.push(ls@[i as int]@));
            assert(before.push(ls@[i as int]@) + kept_from(all.skip(i + 1), inside) == before + (
            seq![ls@[i as int]@] + kept_from(all.skip(i + 1), inside)));
        }
        i = i + 1;
    }
    assert(all.skip(i as int) == Seq::<Seq<char>>::empty());
    assert(views(kept@) == kept_lines(existing@));
    let mut out = String::new();
    let mut j: usize = 0;
    while j < kept.len()
        invariant
            0 <= j <= kept.len(),
            out@ == join_lines(views(kept@).take(j as int)),
        decreases kept.len() - j,
    {
        out.append(kept[j].as_str());
        push_char(&mut out, '\n');
        proof {
            lemma_join_lines_push(views(kept@).take(j as int), kept@[j as int]@);
            assert(views(kept@).take(j + 1) == views(kept@).take(j as int).push(kept@[j as int]@));
        }
        j = j + 1;
    }
    assert(views(kept@).take(j as int) == views(kept@));
    if !out.as_str().is_empty() && !ends_with_str(out.as_str(), "\n\n") {
        push_char(&mut out, '\n');
    }
    proof {
        reveal_strlit("\n\n");
    }
    let block = render_block(hostnames);
    out.append(block.as_str());
    out
}

// ---------------------------------------------------------------------------
// Idempotence
// ---------------------------------------------------------------------------

proof fn lemma_trim_nonws_first(s: Seq<char>)
    requires
        s.len() > 0,
        !is_ws(s[0]),
    ensures
        trim(s).len() > 0,
        trim(s)[0] == s[0],
{
    lemma_trim_start_skip(s, 0);
    assert(s.skip(0) == s);
    // The first character is not whitespace, so trimming the end keeps it.
    lemma_trim_end_keeps_first(s);
}

proof fn lemma_trim_end_keeps_first(s: Seq<char>)
    requires
        s.len() > 0,
        !is_ws(s[0]),
    ensures
        trim_end(s).len() > 0,
        trim_end(s)[0] == s[0],
    decreases s.len(),
{
    if is_ws(s.last()) {
        assert(s.len() > 1);
        assert(s.drop_last()[0] == s[0]);
        lemma_trim_end_keeps_first(s.drop_last());
    }
}

proof fn lemma_markers()
    ensures
        HOSTS_BEGIN@.len() > 0,
        HOSTS_BEGIN@[0] == '#',
        HOSTS_END@.len() > 0,
        HOSTS_END@[0] == '#',
        trim(HOSTS_BEGIN@) == HOSTS_BEGIN@,
        trim(HOSTS_END@) == HOSTS_END@,
        HOSTS_BEGIN@ != HOSTS_END@,
        plain_line(HOSTS_BEGIN@),
        plain_line(HOSTS_END@),
{
    reveal_strlit("# BEGIN laralux");
    reveal_strlit("# END laralux");
    let b = HOSTS_BEGIN@;
    let e = HOSTS_END@;
    lemma_trim_start_skip(b, 0);
    lemma_trim_end_take(b, b.len() as int);
    lemma_trim_start_skip(e, 0);
    lemma_trim_end_take(e, e.len() as int);
    assert(b.skip(0) == b);
    assert(b.take(b.len() as int) == b);
    assert(e.skip(0) == e);
    assert(e.take(e.len() as int) == e);
    assert(b[2] != e[2]);
    assert(!has_char(b, '\n'));
    assert(!has_char(e, '\n'));
}

/// The lines of a rendered block, read back, are skipped entirely.
proof fn lemma_kept_block(hosts: Seq<Seq<char>>, inside: bool)
    ensures
        kept_from(block_lines(hosts), inside) == Seq::<Seq<char>>::empty(),
{
    lemma_markers();
    let b = block_lines(hosts);
    let hl = hosts.map_values(|h: Seq<char>| host_line(h));
    assert(b[0] == HOSTS_BEGIN@);
    assert(b.drop_first() == hl + seq![HOSTS_END@]);
    assert(hl.skip(0) == hl);
    lemma_kept_hosts(hosts, 0);
}

proof fn lemma_kept_hosts(hosts: Seq<Seq<char>>, i: int)
    requires
        0 <= i <= hosts.len(),
    ensures
        kept_from(hosts.map_values(|h: Seq<char>| host_line(h)).skip(i) + seq![HOSTS_END@], true)
            == Seq::<Seq<char>>::empty(),
    decreases hosts.len() - i,
{
    lemma_markers();
    let hl = hosts.map_values(|h: Seq<char>| host_line(h));
    let t = hl.skip(i) + seq![HOSTS_END@];
    if i == hosts.len() {
        assert(t == seq![HOSTS_END@]);
        assert(t.drop_first() == Seq::<Seq<char>>::empty());
        assert(kept_from(Seq::<Seq<char>>::empty(), false) == Seq::<Seq<char>>::empty());
    } else {
        reveal_strlit("127.0.0.1 ");
        let l = host_line(hosts[i]);
        assert(t[0] == l);
        assert(l[0] == '1');
        lemma_trim_nonws_first(l);
        assert(trim(l) != HOSTS_BEGIN@);
        assert(trim(l) != HOSTS_END@);
        assert(t.drop_first() == hl.skip(i + 1) + seq![HOSTS_END@]);
        lemma_kept_hosts(hosts, i + 1);
    }
}

/// Lines that are not markers pass through `kept_from` unchanged, and a block
/// after them is dropped.
proof fn lemma_kept_plain_then_block(ks: Seq<Seq<char>>, hosts: Seq<Seq<char>>)
    requires
        forall|i: int| 0 <= i < ks.len() ==> trim(#[trigger] ks[i]) != HOSTS_BEGIN@ && trim(ks[i]) != HOSTS_END@,
    ensures
        kept_from(ks + block_lines(hosts), false) == ks,
    decreases ks.len(),
{
    if ks.len() == 0 {
        assert(ks + block_lines(hosts) == block_lines(hosts));
        lemma_kept_block(hosts, false);
    } else {
        let all = ks + block_lines(hosts);
        assert(all[0] == ks[0]);
        assert(all.drop_first() == ks.drop_first() + block_lines(hosts));
        assert forall|i: int| 0 <= i < ks.drop_first().len() implies trim(#[trigger] ks.drop_first()[i]) != HOSTS_BEGIN@
            && trim(ks.drop_first()[i]) != HOSTS_END@ by {
            assert(ks.drop_first()[i] == ks[i + 1]);
        }
        lemma_kept_plain_then_block(ks.drop_first(), hosts);
        assert(seq![ks[0]] + ks.drop_first() == ks);
    }
}

/// No kept line is a marker line.
proof fn lemma_kept_not_marker(ls: Seq<Seq<char>>, inside: bool)
    ensures
        forall|i: int| 0 <= i < kept_from(ls, inside).len() ==> trim(#[trigger] kept_from(ls, inside)[i])
            != HOSTS_BEGIN@ && trim(kept_from(ls, inside)[i]) != HOSTS_END@,
    decreases ls.len(),
{
    if ls.len() > 0 {
        lemma_kept_not_marker(ls.drop_first(), true);
        lemma_kept_not_marker(ls.drop_first(), false);
        lemma_kept_not_marker(ls.drop_first(), inside);
        if trim(ls[0]) == HOSTS_BEGIN@ {
            assert(kept_from(ls, inside) == kept_from(ls.drop_first(), true));
        } else if trim(ls[0]) == HOSTS_END@ {
            assert(kept_from(ls, inside) == kept_from(ls.drop_first(), false));
        } else if inside {
            assert(kept_from(ls, inside) == kept_from(ls.drop_first(), inside));
        } else {
            let r = kept_from(ls.drop_first(), inside);
            assert forall|i: int| 0 <= i < kept_from(ls, inside).len() implies trim(#[trigger] kept_from(ls, inside)[i])
                != HOSTS_BEGIN@ && trim(kept_from(ls, inside)[i]) != HOSTS_END@ by {
                if i > 0 {
                    assert(kept_from(ls, inside)[i] == r[i - 1]);
                } else {
                    assert(kept_from(ls, inside)[i] == ls[0]);
                }
            }
        }
    }
}

/// No line of `ls` is a marker line.
pub open spec fn no_marker(ls: Seq<Seq<char>>) -> bool {
    forall|i: int| 0 <= i < ls.len() ==> trim(#[trigger] ls[i]) != HOSTS_BEGIN@ && trim(ls[i]) != HOSTS_END@
}

/// Marker-free lines read outside a block are all kept.
proof fn lemma_unmarked_prefix_kept(p: Seq<Seq<char>>, x: Seq<Seq<char>>)
    requires
        no_marker(p),
    ensures
        kept_from(p + x, false) == p + kept_from(x, false),
    decreases p.len(),
{
    if p.len() == 0 {
        assert(p + x == x);
    } else {
        assert((p + x)[0] == p[0]);
        assert((p + x).drop_first() == p.drop_first() + x);
        assert(trim(p[0]) != HOSTS_BEGIN@ && trim(p[0]) != HOSTS_END@);
        assert forall|i: int| 0 <= i < p.drop_first().len() implies trim(#[trigger] p.drop_first()[i]) != HOSTS_BEGIN@
            && trim(p.drop_first()[i]) != HOSTS_END@ by {
            assert(p.drop_first()[i] == p[i + 1]);
        }
        lemma_unmarked_prefix_kept(p.drop_first(), x);
        assert(seq![p[0]] + (p.drop_first() + kept_from(x, false)) =~= p + kept_from(x, false));
    }
}

/// Marker-free lines read inside a block are all dropped.
proof fn lemma_unmarked_inside_dropped(q: Seq<Seq<char>>, x: Seq<Seq<char>>)
    requires
        no_marker(q),
    ensures
        kept_from(q + x, true) == kept_from(x, true),
    decreases q.len(),
{
    if q.len() == 0 {
        assert(q + x == x);
    } else {
        assert((q + x)[0] == q[0]);
        assert((q + x).drop_first() == q.drop_first() + x);
        assert(trim(q[0]) != HOSTS_BEGIN@ && trim(q[0]) != HOSTS_END@);
        assert forall|i: int| 0 <= i < q.drop_first().len() implies trim(#[trigger] q.drop_first()[i]) != HOSTS_BEGIN@
            && trim(q.drop_first()[i]) != HOSTS_END@ by {
            assert(q.drop_first()[i] == q[i + 1]);
        }
        lemma_unmarked_inside_dropped(q.drop_first(), x);
    }
}

/// The lines kept from a hosts file are exactly those outside the marker
/// pairs, in order: lines before a `BEGIN` marker are kept, the lines from it
/// through its `END` marker are dropped, and reading goes on after the `END`
/// marker as outside a block (so a file with no markers is kept whole).
pub proof fn lemma_lines_outside_blocks_kept(
    p: Seq<Seq<char>>,
    b: Seq<char>,
    q: Seq<Seq<char>>,
    e: Seq<char>,
    r: Seq<Seq<char>>,
)
    requires
        no_marker(p),
        no_marker(q),
        trim(b) == HOSTS_BEGIN@,
        trim(e) == HOSTS_END@,
    ensures
        kept_from(p, false) == p,
        kept_from(p + seq![b] + q + seq![e] + r, false) == p + kept_from(r, false),
        no_marker(r) ==> kept_from(p + seq![b] + q + seq![e] + r, false) == p + r,
{
    lemma_markers();
    lemma_unmarked_prefix_kept(p, seq![]);
    assert(p + Seq::<Seq<char>>::empty() == p);
    let tail = seq![b] + q + seq![e] + r;
    assert(p + seq![b] + q + seq![e] + r == p + tail);
    lemma_unmarked_prefix_kept(p, tail);
    assert(tail[0] == b);
    assert(tail.drop_first() == q + (seq![e] + r));
    lemma_unmarked_inside_dropped(q, seq![e] + r);
    assert((seq![e] + r)[0] == e);
    assert((seq![e] + r).drop_first() == r);
    assert(kept_from(tail, false) == kept_from(tail.drop_first(), true));
    assert(kept_from(seq![e] + r, true) == kept_from(r, false));
    assert(kept_from(tail, false) == kept_from(r, false));
    if no_marker(r) {
        lemma_unmarked_prefix_kept(r, seq![]);
        assert(r + Seq::<Seq<char>>::empty() == r);
    }
}

/// Rewriting the block keeps every line of the file outside the old block,
/// in order, before the fresh block: for a file made of marker-free lines,
/// an old block, and more marker-free lines, the result is the lines before
/// and after the old block, then (after at most one separating line feed)
/// the new block.
pub proof fn lemma_apply_block_keeps_outside_lines(
    existing: Seq<char>,
    hosts: Seq<Seq<char>>,
    p: Seq<Seq<char>>,
    b: Seq<char>,
    q: Seq<Seq<char>>,
    e: Seq<char>,
    r: Seq<Seq<char>>,
)
    requires
        lines(existing) == p + seq![b] + q + seq![e] + r,
        no_marker(p),
        no_marker(q),
        no_marker(r),
        trim(b) == HOSTS_BEGIN@,
        trim(e) == HOSTS_END@,
    ensures
        exists|sep: Seq<char>|
            (sep == Seq::<char>::empty() || sep == seq!['\n']) && spec_apply_block(existing, hosts) == join_lines(p + r) + sep
                + spec_render_block(hosts),
{
    lemma_lines_outside_blocks_kept(p, b, q, e, r);
    let k = join_lines(p + r);
    if k.len() > 0 && !ends_with(k, "\n\n"@) {
        assert(spec_apply_block(existing, hosts) == k + seq!['\n'] + spec_render_block(hosts));
    } else {
        assert(spec_apply_block(existing, hosts) == k + Seq::<char>::empty() + spec_render_block(hosts));
    }
}

/// Every kept line is one of the input lines.
proof fn lemma_kept_subset(ls: Seq<Seq<char>>, inside: bool)
    ensures
        forall|i: int| 0 <= i < kept_from(ls, inside).len() ==> ls.contains(#[trigger] kept_from(ls, inside)[i]),
    decreases ls.len(),
{
    if ls.len() > 0 {
        lemma_kept_subset(ls.drop_first(), true);
        lemma_kept_subset(ls.drop_first(), false);
        let k = kept_from(ls, inside);
        assert forall|i: int| 0 <= i < k.len() implies ls.contains(#[trigger] k[i]) by {
            if trim(ls[0]) == HOSTS_BEGIN@ || trim(ls[0]) == HOSTS_END@ || inside {
                let r = kept_from(ls.drop_first(), if trim(ls[0]) == HOSTS_BEGIN@ { true } else if trim(ls[0]) == HOSTS_END@ { false } else { inside });
                assert(k == r);
                let j = choose|j: int| 0 <= j < ls.drop_first().len() && ls.drop_first()[j] == k[i];
                assert(ls[j + 1] == k[i]);
            } else if i == 0 {
                assert(ls[0] == k[0]);
            } else {
                let r = kept_from(ls.drop_first(), inside);
                assert(k[i] == r[i - 1]);
                let j = choose|j: int| 0 <= j < ls.drop_first().len() && ls.drop_first()[j] == r[i - 1];
                assert(ls[j + 1] == k[i]);
            }
        }
    }
}

/// Applying the block to a file that already carries it, with the same hosts,
/// changes nothing: `apply_block(apply_block(e, h), h) == apply_block(e, h)`.
/// It holds when no hostname holds a line break and no line kept from `e` ends
/// in a carriage return (such a line would lose it when read back).
pub proof fn lemma_apply_block_idempotent(existing: Seq<char>, hosts: Seq<Seq<char>>)
    requires
        forall|i: int| 0 <= i < hosts.len() ==> !has_char(#[trigger] hosts[i], '\n') && !has_char(hosts[i], '\r'),
        forall|i: int| 0 <= i < kept_lines(existing).len() ==> !(#[trigger] kept_lines(existing)[i].len() > 0
            && kept_lines(existing)[i].last() == '\r'),
    ensures
        spec_apply_block(spec_apply_block(existing, hosts), hosts) == spec_apply_block(existing, hosts),
{
    lemma_markers();
    reveal_strlit("127.0.0.1 ");
    reveal_strlit("\n\n");
    let ks = kept_lines(existing);
    let k = join_lines(ks);
    let sep = k.len() > 0 && !ends_with(k, "\n\n"@);
    let ks2 = if sep { ks.push(Seq::<char>::empty()) } else { ks };
    lemma_join_lines_push(ks, Seq::<char>::empty());
    assert(k + Seq::<char>::empty() == k);
    let k2 = join_lines(ks2);
    assert(k2 == if sep { k + seq!['\n'] } else { k });
    let b = block_lines(hosts);
    let out1 = spec_apply_block(existing, hosts);
    lemma_join_lines_append(ks2, b);
    assert(out1 == join_lines(ks2 + b));
    // every piece of ks2 + b reads back unchanged
    lemma_lines_from_no_lf(existing, Seq::<char>::empty());
    lemma_kept_subset(lines(existing), false);
    lemma_kept_not_marker(lines(existing), false);
    let all = ks2 + b;
    assert forall|i: int| 0 <= i < all.len() implies plain_line(#[trigger] all[i]) by {
        if i < ks.len() {
            assert(all[i] == ks[i]);
            let j = choose|j: int| 0 <= j < lines(existing).len() && lines(existing)[j] == ks[i];
            assert(!has_char(lines(existing)[j], '\n'));
        } else if i < ks2.len() {
            assert(all[i] == Seq::<char>::empty());
        } else {
            let bi = i - ks2.len();
            assert(all[i] == b[bi]);
            if bi == 0 {
            } else if bi == b.len() - 1 {
            } else {
                let h = hosts[bi - 1];
                assert(b[bi] == host_line(h));
                assert(!has_char(host_line(h), '\n')) by {
                    if has_char(host_line(h), '\n') {
                        let x = choose|x: int| 0 <= x < host_line(h).len() && host_line(h)[x] == '\n';
                        if x >= 10 {
                            assert(h[x - 10] == '\n');
                        }
                    }
                }
                if h.len() > 0 {
                    assert(host_line(h).last() == h.last());
                    assert(h[h.len() - 1] != '\r');
                }
            }
        }
    }
    lemma_lines_join(all);
    assert(lines(out1) == all);
    // the kept lines of the output are ks2
    assert forall|i: int| 0 <= i < ks2.len() implies trim(#[trigger] ks2[i]) != HOSTS_BEGIN@ && trim(ks2[i]) != HOSTS_END@ by {
        if i < ks.len() {
            assert(ks2[i] == ks[i]);
        } else {
            assert(ks2[i] == Seq::<char>::empty());
            assert(trim(Seq::<char>::empty()) == Seq::<char>::empty());
        }
    }
    lemma_kept_plain_then_block(ks2, hosts);
    assert(kept_lines(out1) == ks2);
    // second round: no further separator
    if sep {
        assert(k2 == k + seq!['\n']);
        assert(k.len() > 0);
        assert(k.last() == '\n') by {
            assert(ks.len() > 0);
            lemma_join_lines_push(ks.drop_last(), ks.last());
            assert(ks.drop_last().push(ks.last()) == ks);
        }
        assert(k2.skip(k2.len() - 2) =~= seq!['\n', '\n']);
        assert("\n\n"@ =~= seq!['\n', '\n']);
        assert(ends_with(k2, "\n\n"@));
    }
}

} // verus!
