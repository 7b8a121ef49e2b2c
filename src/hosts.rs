use vstd::prelude::*;

use crate::bytes::{append_bytes, copy_bytes, occurs_at, occurs_at_exec};

verus! {

broadcast use vstd::seq_lib::group_filter_ensures;

/// A space, a tab or a carriage return, which separate or end the fields
/// of a hosts-table line (a carriage return ends each line of a text whose
/// lines end in CR LF).
pub open spec fn is_blank(b: u8) -> bool {
    b == 32u8 || b == 9u8 || b == 13u8
}

/// Whether a byte is blank.
fn is_blank_byte(b: u8) -> (r: bool)
    ensures
        r == is_blank(b),
{
    b == 32u8 || b == 9u8 || b == 13u8
}

/// No line of `lines` holds a line feed.
pub open spec fn no_line_feeds(lines: Seq<Seq<u8>>) -> bool {
    forall|i: int, j: int| 0 <= i < lines.len() && 0 <= j < lines[i].len() ==> #[trigger] lines[i][j] != 10u8
}

/// The mark that starts a comment in a hosts-table line: `#`.
pub open spec fn is_comment_mark(b: u8) -> bool {
    b == 35u8
}

/// A single field: not empty, with no blank and no comment mark.
pub open spec fn is_plain_field(s: Seq<u8>) -> bool {
    s.len() > 0 && forall|i: int| 0 <= i < s.len() ==> !is_blank(#[trigger] s[i]) && !is_comment_mark(s[i])
}

/// `host` stands in `line` at position `k` as a whole field, before any
/// comment, and after the line's first field (the address).
pub open spec fn field_at(line: Seq<u8>, host: Seq<u8>, k: int) -> bool {
    &&& host.len() > 0
    &&& 1 <= k && k + host.len() <= line.len()
    &&& line.subrange(k, k + host.len()) == host
    &&& is_blank(line[k - 1])
    &&& (k + host.len() == line.len() || is_blank(line[k + host.len()]) || is_comment_mark(
        line[k + host.len()],
    ))
    &&& forall|i: int| 0 <= i < k + host.len() ==> !is_comment_mark(#[trigger] line[i])
    &&& exists|j: int| 0 <= j < k && !is_blank(#[trigger] line[j])
}

/// `line` maps `host`: one of its names, the fields after the address and
/// before any comment, is `host`.
pub open spec fn is_entry_for(line: Seq<u8>, host: Seq<u8>) -> bool {
    exists|k: int| #[trigger] field_at(line, host, k)
}

/// Keeps the lines that do not map `host`.
pub open spec fn unrelated_to(host: Seq<u8>) -> spec_fn(Seq<u8>) -> bool {
    |line: Seq<u8>| !is_entry_for(line, host)
}

/// Keeps the lines that map `host`.
pub open spec fn entries_of(host: Seq<u8>) -> spec_fn(Seq<u8>) -> bool {
    |line: Seq<u8>| is_entry_for(line, host)
}

/// The line that maps `host` to `address`.
pub open spec fn entry_line(host: Seq<u8>, address: Seq<u8>) -> Seq<u8> {
    address + seq![32u8] + host
}

/// The table without any line for `host`, all other lines kept in order.
pub open spec fn deactivate_spec(table: Seq<Seq<u8>>, host: Seq<u8>) -> Seq<Seq<u8>> {
    table.filter(unrelated_to(host))
}

/// `line` added at the end of `lines`, but before a final empty line (the
/// mark of a text that ends with a line feed).
pub open spec fn place_last(lines: Seq<Seq<u8>>, line: Seq<u8>) -> Seq<Seq<u8>> {
    if lines.len() > 0 && lines.last().len() == 0 {
        lines.drop_last().push(line).push(lines.last())
    } else {
        lines.push(line)
    }
}

/// The table with one line that maps `host` to `address`, after the lines
/// that do not map `host`.
pub open spec fn activate_spec(table: Seq<Seq<u8>>, host: Seq<u8>, address: Seq<u8>) -> Seq<
    Seq<u8>,
> {
    place_last(deactivate_spec(table, host), entry_line(host, address))
}

/// The table's text: its lines joined by line feeds, with none after the
/// last line.
pub open spec fn render_spec(lines: Seq<Seq<u8>>) -> Seq<u8>
    decreases lines.len(),
{
    if lines.len() == 0 {
        Seq::empty()
    } else if lines.len() == 1 {
        lines[0]
    } else {
        render_spec(lines.drop_last()) + seq![10u8] + lines.last()
    }
}

/// The contents of each line.
pub open spec fn lines_view(lines: Seq<Vec<u8>>) -> Seq<Seq<u8>> {
    lines.map_values(|l: Vec<u8>| l@)
}

/// The name-resolution table, one line per element, without line breaks.
pub struct HostsTable {
    pub lines: Vec<Vec<u8>>,
}

impl View for HostsTable {
    type V = Seq<Seq<u8>>;

    open spec fn view(&self) -> Seq<Seq<u8>> {
        lines_view(self.lines@)
    }
}

/// The position of the first comment mark of `line`, or its length.
fn comment_start(line: &[u8]) -> (r: usize)
    ensures
        r <= line@.len(),
        forall|i: int| 0 <= i < r ==> !is_comment_mark(#[trigger] line@[i]),
        r < line@.len() ==> is_comment_mark(line@[r as int]),
{
    let mut i: usize = 0;
    while i < line.len()
        invariant
            i <= line@.len(),
            forall|t: int| 0 <= t < i ==> !is_comment_mark(#[trigger] line@[t]),
        decreases line@.len() - i,
    {
        if line[i] == 35u8 {
            return i;
        }
        i += 1;
    }
    i
}

/// The position of the first byte of `line` that is not blank, or its length.
fn first_non_blank(line: &[u8]) -> (r: usize)
    ensures
        r <= line@.len(),
        forall|i: int| 0 <= i < r ==> is_blank(#[trigger] line@[i]),
        r < line@.len() ==> !is_blank(line@[r as int]),
{
    let mut i: usize = 0;
    while i < line.len()
        invariant
            i <= line@.len(),
            forall|t: int| 0 <= t < i ==> is_blank(#[trigger] line@[t]),
        decreases line@.len() - i,
    {
        if !is_blank_byte(line[i]) {
            return i;
        }
        i += 1;
    }
    i
}

/// Whether `line` maps `host`.
pub fn is_entry(line: &[u8], host: &[u8]) -> (r: bool)
    ensures
        r == is_entry_for(line@, host@),
{
    let len = line.len();
    let hl = host.len();
    if hl == 0 || hl > len {
        assert forall|k: int| !#[trigger] field_at(line@, host@, k) by {}
        return false;
    }
    let comment = comment_start(line);
    let first = first_non_blank(line);
    let mut k: usize = 1;
    while k <= len - hl
        invariant
            len == line@.len(),
            hl == host@.len(),
            0 < hl <= len,
            1 <= k <= len - hl + 1,
            comment <= len,
            forall|i: int| 0 <= i < comment ==> !is_comment_mark(#[trigger] line@[i]),
            comment < len ==> is_comment_mark(line@[comment as int]),
            first <= len,
            forall|i: int| 0 <= i < first ==> is_blank(#[trigger] line@[i]),
            first < len ==> !is_blank(line@[first as int]),
            forall|k2: int| k2 < k ==> !#[trigger] field_at(line@, host@, k2),
        decreases len - hl + 1 - k,
    {
        let here = occurs_at_exec(line, host, k);
        let end = k + hl;
        let ok = here && is_blank_byte(line[k - 1]) && (end == len || is_blank_byte(line[end])
            || line[end] == 35u8) && end <= comment && first < k;
        proof {
            if ok {
                assert(occurs_at(line@, host@, k as int));
                assert(field_at(line@, host@, k as int));
            } else if field_at(line@, host@, k as int) {
                let j = choose|j: int| 0 <= j < k && !is_blank(#[trigger] line@[j]);
                assert(first <= j);
                if end > comment {
                    assert(!is_comment_mark(line@[comment as int]));
                }
                assert(occurs_at(line@, host@, k as int));
            }
        }
        if ok {
            return true;
        }
        k += 1;
    }
    assert forall|k2: int| !#[trigger] field_at(line@, host@, k2) by {
        if k2 >= k {
            assert(k2 + hl > len);
        }
    }
    false
}

/// The text of `lines` with one more byte at the end of the last line.
proof fn lemma_render_extend(lines: Seq<Seq<u8>>, last: Seq<u8>, b: u8)
    ensures
        render_spec(lines.push(last.push(b))) == render_spec(lines.push(last)).push(b),
{
    assert(lines.push(last.push(b)).drop_last() =~= lines);
    assert(lines.push(last).drop_last() =~= lines);
    if lines.len() == 0 {
        assert(render_spec(lines.push(last)) == last);
    } else {
        assert(render_spec(lines.push(last.push(b))) =~= render_spec(lines) + seq![10u8] + last.push(b));
        assert(render_spec(lines.push(last)).push(b) =~= render_spec(lines) + seq![10u8] + last.push(b));
    }
}

/// The text of `lines` followed by an empty line ends with one more line feed.
proof fn lemma_render_new_line(lines: Seq<Seq<u8>>, last: Seq<u8>)
    ensures
        render_spec(lines.push(last).push(Seq::empty())) == render_spec(lines.push(last)).push(10u8),
{
    assert(lines.push(last).push(Seq::<u8>::empty()).drop_last() =~= lines.push(last));
    assert(render_spec(lines.push(last).push(Seq::empty())) =~= render_spec(lines.push(last)) + seq![10u8] + Seq::<u8>::empty());
}

impl HostsTable {
    /// A table of the given lines.
    pub fn from_lines(lines: Vec<Vec<u8>>) -> (r: HostsTable)
        ensures
            r@ == lines_view(lines@),
    {
        HostsTable { lines }
    }

    /// The table of a text: its lines split at each line feed, which are
    /// dropped. A text that ends with a line feed gives a final empty line,
    /// so that rendering gives back the text exactly.
    pub fn parse(text: &[u8]) -> (r: HostsTable)
        ensures
            render_spec(r@) == text@,
            no_line_feeds(r@),
    {
        let mut out: Vec<Vec<u8>> = Vec::new();
        let mut cur: Vec<u8> = Vec::new();
        let mut i: usize = 0;
        assert(lines_view(out@).push(cur@).drop_last() =~= Seq::<Seq<u8>>::empty());
        assert(text@.take(0) =~= Seq::<u8>::empty());
        while i < text.len()
            invariant
                i <= text@.len(),
                render_spec(lines_view(out@).push(cur@)) == text@.take(i as int),
                no_line_feeds(lines_view(out@).push(cur@)),
            decreases text@.len() - i,
        {
            let b = text[i];
            assert(text@.take(i + 1) =~= text@.take(i as int).push(b));
            if b == 10u8 {
                let ghost before = lines_view(out@);
                let ghost line = cur@;
                out.push(cur);
                cur = Vec::new();
                proof {
                    lemma_render_new_line(before, line);
                    assert(lines_view(out@) =~= before.push(line));
                    assert(cur@ =~= Seq::<u8>::empty());
                    assert forall|a: int, c: int|
                        0 <= a < lines_view(out@).push(cur@).len() && 0 <= c < lines_view(
                            out@,
                        ).push(cur@)[a].len() implies #[trigger] lines_view(out@).push(cur@)[a][c]
                        != 10u8 by {
                        assert(a < before.len() + 1);
                        assert(lines_view(out@).push(cur@)[a] == before.push(line)[a]);
                    }
                }
            } else {
                proof {
                    lemma_render_extend(lines_view(out@), cur@, b);
                }
                let ghost old_lines = lines_view(out@).push(cur@);
                cur.push(b);
                proof {
                    assert forall|a: int, c: int|
                        0 <= a < lines_view(out@).push(cur@).len() && 0 <= c < lines_view(
                            out@,
                        ).push(cur@)[a].len() implies #[trigger] lines_view(out@).push(cur@)[a][c]
                        != 10u8 by {
                        if a < old_lines.len() - 1 {
                            assert(lines_view(out@).push(cur@)[a] == old_lines[a]);
                        } else if c < old_lines[a].len() {
                            assert(lines_view(out@).push(cur@)[a][c] == old_lines[a][c]);
                        }
                    }
                }
            }
            i += 1;
        }
        let ghost before = lines_view(out@);
        let ghost line = cur@;
        out.push(cur);
        assert(lines_view(out@) =~= before.push(line));
        assert(text@.take(text@.len() as int) =~= text@);
        HostsTable { lines: out }
    }

    /// The text of the table, as it is written back.
    pub fn render(&self) -> (r: Vec<u8>)
        ensures
            r@ == render_spec(self@),
    {
        let mut out: Vec<u8> = Vec::new();
        let mut i: usize = 0;
        while i < self.lines.len()
            invariant
                i <= self.lines@.len(),
                out@ == render_spec(self@.take(i as int)),
            decreases self.lines@.len() - i,
        {
            proof {
                assert(self@.take(i + 1).drop_last() =~= self@.take(i as int));
            }
            if i > 0 {
                out.push(10u8);
            }
            crate::bytes::append_bytes(&mut out, self.lines[i].as_slice());
            i += 1;
            proof {
                if i == 1 {
                    assert(out@ =~= self@.take(1)[0]);
                } else {
                    assert(out@ =~= render_spec(self@.take(i - 1)) + seq![10u8] + self@.take(i as int).last());
                }
            }
        }
        assert(self@.take(self.lines@.len() as int) =~= self@);
        out
    }

    /// The table without any line for `host`; every other line stays as it
    /// was, in its order.
    pub fn deactivate(&self, host: &[u8]) -> (r: HostsTable)
        ensures
            r@ == deactivate_spec(self@, host@),
    {
        let mut out: Vec<Vec<u8>> = Vec::new();
        let mut i: usize = 0;
        while i < self.lines.len()
            invariant
                i <= self.lines@.len(),
                lines_view(out@) == deactivate_spec(self@.take(i as int), host@),
            decreases self.lines@.len() - i,
        {
            let line = &self.lines[i];
            let entry = is_entry(line.as_slice(), host);
            proof {
                assert(self@.take(i + 1) =~= self@.take(i as int).push(line@));
                self@.take(i as int).lemma_filter_push(line@, unrelated_to(host@));
            }
            if !entry {
                let kept = copy_bytes(line.as_slice());
                let ghost before = out@;
                out.push(kept);
                assert(lines_view(out@) =~= lines_view(before).push(line@));
            }
            i += 1;
        }
        assert(self@.take(self.lines@.len() as int) =~= self@);
        HostsTable { lines: out }
    }

    /// The table with exactly one line for `host`, mapping it to `address`,
    /// placed after every other line (but before a final empty line), which
    /// stay as they were.
    pub fn activate(&self, host: &[u8], address: &[u8]) -> (r: HostsTable)
        ensures
            r@ == activate_spec(self@, host@, address@),
    {
        let mut table = self.deactivate(host);
        let mut line: Vec<u8> = copy_bytes(address);
        line.push(32u8);
        append_bytes(&mut line, host);
        assert(line@ =~= entry_line(host@, address@));
        let ghost kept = table@;
        let n = table.lines.len();
        if n > 0 && table.lines[n - 1].len() == 0 {
            let last = table.lines.pop().unwrap();
            let ghost front = table.lines@;
            table.lines.push(line);
            table.lines.push(last);
            assert(lines_view(front) =~= kept.drop_last());
            assert(table@ =~= kept.drop_last().push(entry_line(host@, address@)).push(kept.last()));
        } else {
            let ghost before = table.lines@;
            table.lines.push(line);
            assert(table@ =~= lines_view(before).push(entry_line(host@, address@)));
        }
        table
    }
}

/// Filtering a table whose lines all pass leaves it as it is.
proof fn lemma_filter_all_pass(t: Seq<Seq<u8>>, keep: spec_fn(Seq<u8>) -> bool)
    requires
        forall|i: int| 0 <= i < t.len() ==> keep(#[trigger] t[i]),
    ensures
        t.filter(keep) == t,
    decreases t.len(),
{
    if t.len() > 0 {
        let front = t.drop_last();
        lemma_filter_all_pass(front, keep);
        assert(front.push(t.last()) =~= t);
        front.lemma_filter_push(t.last(), keep);
    }
}

/// Filtering a table none of whose lines pass leaves nothing.
proof fn lemma_filter_none_pass(t: Seq<Seq<u8>>, keep: spec_fn(Seq<u8>) -> bool)
    requires
        forall|i: int| 0 <= i < t.len() ==> !keep(#[trigger] t[i]),
    ensures
        t.filter(keep).len() == 0,
    decreases t.len(),
{
    if t.len() > 0 {
        let front = t.drop_last();
        assert forall|i: int| 0 <= i < front.len() implies !keep(#[trigger] front[i]) by {
            assert(front[i] == t[i]);
        }
        lemma_filter_none_pass(front, keep);
        assert(front.push(t.last()) =~= t);
        front.lemma_filter_push(t.last(), keep);
    }
}

/// The line that maps `host` to `address` is an entry for `host`.
proof fn lemma_entry_line_maps(host: Seq<u8>, address: Seq<u8>)
    requires
        is_plain_field(host),
        is_plain_field(address),
    ensures
        is_entry_for(entry_line(host, address), host),
{
    let e = entry_line(host, address);
    let k: int = address.len() as int + 1;
    assert(e.subrange(k, k + host.len()) =~= host);
    assert forall|i: int| 0 <= i < k + host.len() implies !is_comment_mark(#[trigger] e[i]) by {
        if i < address.len() {
            assert(e[i] == address[i]);
        } else if i > address.len() {
            assert(e[i] == host[i - k]);
        }
    }
    assert(e[0] == address[0]);
    assert(field_at(e, host, k));
}

/// An empty line maps no host.
proof fn lemma_empty_line_maps_nothing(host: Seq<u8>)
    ensures
        !is_entry_for(Seq::empty(), host),
{
    assert forall|k: int| !#[trigger] field_at(Seq::empty(), host, k) by {}
}

/// The lines kept by deactivating `host` map no host `host`.
proof fn lemma_kept_are_unrelated(table: Seq<Seq<u8>>, host: Seq<u8>)
    ensures
        forall|i: int|
            0 <= i < deactivate_spec(table, host).len() ==> !is_entry_for(
                #[trigger] deactivate_spec(table, host)[i],
                host,
            ),
{
    assert forall|i: int| 0 <= i < deactivate_spec(table, host).len() implies !is_entry_for(
        #[trigger] deactivate_spec(table, host)[i],
        host,
    ) by {
        table.lemma_filter_pred(unrelated_to(host), i);
    }
}

/// Activating `host` and then deactivating it gives back exactly the lines
/// of the given table that do not map `host`, unchanged and in order,
/// and no line that maps `host`.
pub proof fn lemma_activate_then_deactivate(table: Seq<Seq<u8>>, host: Seq<u8>, address: Seq<u8>)
    requires
        is_plain_field(host),
        is_plain_field(address),
    ensures
        deactivate_spec(activate_spec(table, host, address), host) == table.filter(
            unrelated_to(host),
        ),
        forall|i: int|
            0 <= i < deactivate_spec(activate_spec(table, host, address), host).len()
                ==> !is_entry_for(
                #[trigger] deactivate_spec(activate_spec(table, host, address), host)[i],
                host,
            ),
{
    let kept = table.filter(unrelated_to(host));
    let e = entry_line(host, address);
    lemma_entry_line_maps(host, address);
    lemma_kept_are_unrelated(table, host);
    lemma_filter_all_pass(kept, unrelated_to(host));
    if kept.len() > 0 && kept.last().len() == 0 {
        let front = kept.drop_last();
        assert forall|i: int| 0 <= i < front.len() implies #[trigger] unrelated_to(host)(front[i]) by {
            assert(front[i] == kept[i]);
        }
        lemma_filter_all_pass(front, unrelated_to(host));
        lemma_empty_line_maps_nothing(host);
        assert(kept.last() =~= Seq::<u8>::empty());
        front.lemma_filter_push(e, unrelated_to(host));
        front.push(e).lemma_filter_push(kept.last(), unrelated_to(host));
        assert(front.push(kept.last()) =~= kept);
    } else {
        kept.lemma_filter_push(e, unrelated_to(host));
    }
    lemma_kept_are_unrelated(activate_spec(table, host, address), host);
}

/// Activating `host` twice gives the same table as activating it once,
/// which holds exactly one line that maps `host`.
pub proof fn lemma_activate_twice(table: Seq<Seq<u8>>, host: Seq<u8>, address: Seq<u8>)
    requires
        is_plain_field(host),
        is_plain_field(address),
    ensures
        activate_spec(activate_spec(table, host, address), host, address) == activate_spec(
            table,
            host,
            address,
        ),
        activate_spec(activate_spec(table, host, address), host, address).filter(
            entries_of(host),
        ).len() == 1,
{
    lemma_activate_then_deactivate(table, host, address);
    let kept = table.filter(unrelated_to(host));
    let e = entry_line(host, address);
    lemma_entry_line_maps(host, address);
    lemma_kept_are_unrelated(table, host);
    if kept.len() > 0 && kept.last().len() == 0 {
        let front = kept.drop_last();
        lemma_empty_line_maps_nothing(host);
        assert(kept.last() =~= Seq::<u8>::empty());
        lemma_filter_none_pass(front, entries_of(host));
        front.lemma_filter_push(e, entries_of(host));
        front.push(e).lemma_filter_push(kept.last(), entries_of(host));
    } else {
        lemma_filter_none_pass(kept, entries_of(host));
        kept.lemma_filter_push(e, entries_of(host));
    }
}

} // verus!
