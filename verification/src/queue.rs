//! The display queue: messages and countdowns merged into one order, the
//! items that may be shown now, which item the rotation index points at,
//! labels for message items, and the checks on a reorder request.

use vstd::prelude::*;

use crate::board::{CellContent, Grid, QueueItemInfo, QueueItemKind, Timestamp};
use crate::text::{
    prefix_within, prefix_within_bytes, push_chars, push_str, string_of, trim, trim_chars, utf8_len,
    utf8_longer_than,
};

verus! {

/// A unified queue entry.
#[derive(Debug)]
pub struct QueueItem {
    pub id: u128,
    pub kind: QueueItemKind,
    pub label: String,
    pub queue_position: i64,
    pub expires_at: Option<Timestamp>,
    pub display_at: Option<Timestamp>,
}

impl Clone for QueueItem {
    fn clone(&self) -> (r: Self)
        ensures
            r.id == self.id,
            r.kind == self.kind,
            r.label@ == self.label@,
            r.queue_position == self.queue_position,
            r.expires_at == self.expires_at,
            r.display_at == self.display_at,
    {
        QueueItem {
            id: self.id,
            kind: self.kind,
            label: self.label.clone(),
            queue_position: self.queue_position,
            expires_at: self.expires_at,
            display_at: self.display_at,
        }
    }
}

/// Whether byte string `a` sorts strictly before `b`, comparing byte by
/// byte with a proper prefix first.
pub open spec fn lex_lt(a: Seq<u8>, b: Seq<u8>) -> bool
    decreases a.len(),
{
    if a.len() == 0 {
        b.len() > 0
    } else if b.len() == 0 {
        false
    } else if a[0] != b[0] {
        a[0] < b[0]
    } else {
        lex_lt(a.drop_first(), b.drop_first())
    }
}

/// The bytes of a label (its UTF-8 encoding), by which labels are ordered.
pub open spec fn label_bytes(item: QueueItem) -> Seq<u8> {
    vstd::utf8::encode_utf8(item.label@)
}

/// Whether `a` comes strictly before `b` in the queue: lower position first,
/// then label (byte order).
pub open spec fn item_lt(a: QueueItem, b: QueueItem) -> bool {
    a.queue_position < b.queue_position || (a.queue_position == b.queue_position && lex_lt(
        label_bytes(a),
        label_bytes(b),
    ))
}

/// `sorted` with `x` inserted after every item that does not come after it.
pub open spec fn insert_sorted(sorted: Seq<QueueItem>, x: QueueItem) -> Seq<QueueItem>
    decreases sorted.len(),
{
    if sorted.len() == 0 {
        seq![x]
    } else if item_lt(x, sorted.last()) {
        insert_sorted(sorted.drop_last(), x).push(sorted.last())
    } else {
        sorted.push(x)
    }
}

/// `items` in queue order, items that compare equal keeping their relative
/// order (a stable sort by position, then label).
pub open spec fn queue_order(items: Seq<QueueItem>) -> Seq<QueueItem>
    decreases items.len(),
{
    if items.len() == 0 {
        Seq::empty()
    } else {
        insert_sorted(queue_order(items.drop_last()), items.last())
    }
}

/// Whether `a` sorts strictly before `b`, byte by byte.
fn bytes_lt(a: &[u8], b: &[u8]) -> (r: bool)
    ensures
        r == lex_lt(a@, b@),
{
    let mut i: usize = 0;
    assert(a@.skip(0) == a@ && b@.skip(0) == b@);
    while i < a.len() && i < b.len()
        invariant
            0 <= i <= a@.len(),
            i <= b@.len(),
            lex_lt(a@, b@) == lex_lt(a@.skip(i as int), b@.skip(i as int)),
        decreases a@.len() - i,
    {
        let ghost sa = a@.skip(i as int);
        let ghost sb = b@.skip(i as int);
        assert(sa[0] == a@[i as int] && sb[0] == b@[i as int]);
        if a[i] != b[i] {
            return a[i] < b[i];
        }
        assert(sa.drop_first() == a@.skip(i + 1));
        assert(sb.drop_first() == b@.skip(i + 1));
        i = i + 1;
    }
    i < b.len() && i == a.len()
}

/// Whether `a` comes strictly before `b` in queue order.
fn item_before(a: &QueueItem, b: &QueueItem) -> (r: bool)
    ensures
        r == item_lt(*a, *b),
{
    if a.queue_position != b.queue_position {
        return a.queue_position < b.queue_position;
    }
    bytes_lt(a.label.as_str().as_bytes(), b.label.as_str().as_bytes())
}

/// Sort items into queue order: by position, then label, equal items in
/// their given order.
pub fn sort_queue(items: Vec<QueueItem>) -> (sorted: Vec<QueueItem>)
    ensures
        sorted@ == queue_order(items@),
{
    let mut sorted: Vec<QueueItem> = Vec::new();
    let mut rest = items;
    let ghost all = rest@;
    let mut taken: usize = 0;
    let n = rest.len();
    let mut pending: Vec<QueueItem> = Vec::new();
    // Take the items in order: move them into `pending` reversed, then pop.
    while rest.len() > 0
        invariant
            rest@.len() + pending@.len() == n,
            all.len() == n,
            rest@ == all.take(rest@.len() as int),
            forall|k: int| 0 <= k < pending@.len() ==> #[trigger] pending@[k] == all[n - 1 - k],
        decreases rest@.len(),
    {
        let x = rest.pop().unwrap();
        pending.push(x);
    }
    assert(all.take(0) == Seq::<QueueItem>::empty());
    while pending.len() > 0
        invariant
            taken + pending@.len() == n,
            all.len() == n,
            forall|k: int| 0 <= k < pending@.len() ==> #[trigger] pending@[k] == all[n - 1 - k],
            sorted@ == queue_order(all.take(taken as int)),
        decreases pending@.len(),
    {
        let x = pending.pop().unwrap();
        assert(x == all[taken as int]);
        let ghost before = sorted@;
        let mut pos = sorted.len();
        assert(before.take(before.len() as int) == before);
        assert(before.skip(before.len() as int) == Seq::<QueueItem>::empty());
        while pos > 0 && item_before(&x, &sorted[pos - 1])
            invariant
                0 <= pos <= sorted@.len(),
                sorted@ == before,
                insert_sorted(before, x) == insert_sorted(before.take(pos as int), x) + before.skip(pos as int),
            decreases pos,
        {
            proof {
                let p = before.take(pos as int);
                assert(p.last() == before[pos - 1]);
                assert(p.drop_last() == before.take(pos - 1));
                assert(insert_sorted(p, x) == insert_sorted(before.take(pos - 1), x).push(before[pos - 1]));
                assert(before.skip(pos - 1) == seq![before[pos - 1]] + before.skip(pos as int));
                assert(insert_sorted(before.take(pos - 1), x).push(before[pos - 1]) + before.skip(pos as int)
                    =~= insert_sorted(before.take(pos - 1), x) + before.skip(pos - 1));
            }
            pos = pos - 1;
        }
        proof {
            let p = before.take(pos as int);
            if pos > 0 {
                assert(p.last() == before[pos - 1]);
                assert(insert_sorted(p, x) == p.push(x));
            } else {
                assert(insert_sorted(p, x) == seq![x]);
            }
        }
        sorted.insert(pos, x);
        proof {
            assert(sorted@ =~= insert_sorted(before, x));
            assert(all.take(taken + 1).drop_last() == all.take(taken as int));
            assert(all.take(taken + 1).last() == all[taken as int]);
        }
        taken = taken + 1;
    }
    assert(all.take(n as int) == all);
    sorted
}

/// Build the merged queue from messages and countdowns: messages first,
/// then countdowns, put into queue order.
pub fn merge_queue(messages: Vec<QueueItem>, countdowns: Vec<QueueItem>) -> (q: Vec<QueueItem>)
    ensures
        q@ == queue_order(messages@ + countdowns@),
{
    let mut items = messages;
    let mut cds = countdowns;
    items.append(&mut cds);
    sort_queue(items)
}

/// Whether `item` may be shown at `now`: it has no display time, or its
/// display time is not later than `now`.
pub open spec fn shown_at(item: QueueItem, now: Timestamp) -> bool {
    match item.display_at {
        Some(t) => !t.later_than(now),
        None => true,
    }
}

/// The items that may be shown at `now`, in their given order: messages
/// scheduled for a later time are left out.
pub fn displayable_queue(items: Vec<QueueItem>, now: Timestamp) -> (shown: Vec<QueueItem>)
    ensures
        shown@ == items@.filter(|it: QueueItem| shown_at(it, now)),
{
    let ghost pred = |it: QueueItem| shown_at(it, now);
    let ghost all = items@;
    let n = items.len();
    let mut rest = items;
    let mut pending: Vec<QueueItem> = Vec::new();
    while rest.len() > 0
        invariant
            rest@.len() + pending@.len() == n,
            all.len() == n,
            rest@ == all.take(rest@.len() as int),
            forall|k: int| 0 <= k < pending@.len() ==> #[trigger] pending@[k] == all[n - 1 - k],
        decreases rest@.len(),
    {
        let x = rest.pop().unwrap();
        pending.push(x);
    }
    let mut shown: Vec<QueueItem> = Vec::new();
    let mut taken: usize = 0;
    assert(all.take(0) == Seq::<QueueItem>::empty());
    assert(all.take(0).filter(pred) == Seq::<QueueItem>::empty()) by {
        reveal(Seq::filter);
    }
    while pending.len() > 0
        invariant
            taken + pending@.len() == n,
            all.len() == n,
            forall|k: int| 0 <= k < pending@.len() ==> #[trigger] pending@[k] == all[n - 1 - k],
            shown@ == all.take(taken as int).filter(pred),
            pred == (|it: QueueItem| shown_at(it, now)),
        decreases pending@.len(),
    {
        let x = pending.pop().unwrap();
        assert(x == all[taken as int]);
        proof {
            assert(all.take(taken + 1).drop_last() == all.take(taken as int));
            assert(all.take(taken + 1).last() == all[taken as int]);
        }
        let keep = match x.display_at {
            Some(t) => !t.is_after(&now),
            None => true,
        };
        assert(keep == pred(x));
        proof {
            let t = all.take(taken + 1);
            reveal(Seq::filter);
            assert(t.filter(pred) == (if pred(t.last()) {
                t.drop_last().filter(pred).push(t.last())
            } else {
                t.drop_last().filter(pred)
            }));
        }
        if keep {
            shown.push(x);
        }
        taken = taken + 1;
    }
    assert(all.take(n as int) == all);
    shown
}

/// The queue position that a rotation index points at: the index taken as
/// an unsigned machine word, modulo the queue length.
pub open spec fn position_of(len: nat, current_index: i64) -> int {
    (current_index as usize) as int % (len as int)
}

/// The queue position that the rotation index `current_index` points at in a
/// queue of `len` items.
pub fn current_position(len: usize, current_index: i64) -> (p: usize)
    requires
        len > 0,
    ensures
        p == position_of(len as nat, current_index),
        p < len,
{
    #[verifier::truncate]
    let i = current_index as usize;
    i % len
}

/// The item that the rotation index points at, or `None` for an empty queue.
pub fn current_queue_item(queue: &Vec<QueueItem>, current_index: i64) -> (item: Option<QueueItem>)
    ensures
        queue@.len() == 0 <==> item is None,
        item matches Some(it) ==> {
            let q = queue@[position_of(queue@.len(), current_index)];
            &&& it.id == q.id
            &&& it.kind == q.kind
            &&& it.label@ == q.label@
            &&& it.queue_position == q.queue_position
            &&& it.expires_at == q.expires_at
            &&& it.display_at == q.display_at
        },
{
    if queue.len() == 0 {
        return None;
    }
    let p = current_position(queue.len(), current_index);
    Some(queue[p].clone())
}

/// The summary of a queue item that a board state carries.
pub fn item_info(item: &QueueItem) -> (info: QueueItemInfo)
    ensures
        info.id == item.id,
        info.kind == item.kind,
        info.label@ == item.label@,
{
    QueueItemInfo { id: item.id, kind: item.kind, label: item.label.clone() }
}

/// `chars` with a space appended, unless it is empty or already ends in one.
pub open spec fn space_after(chars: Seq<char>) -> Seq<char> {
    if chars.len() > 0 && chars.last() != ' ' {
        chars.push(' ')
    } else {
        chars
    }
}

/// The label text after reading one more cell: a character is kept, a blank
/// becomes a single space, a colour tile adds nothing.
pub open spec fn label_cell(chars: Seq<char>, cell: CellContent) -> Seq<char> {
    match cell {
        CellContent::Char(c) => chars.push(c),
        CellContent::Blank => space_after(chars),
        CellContent::Color(_) => chars,
    }
}

/// The label text after reading the cells of `row`.
pub open spec fn label_row(chars: Seq<char>, row: Seq<CellContent>) -> Seq<char>
    decreases row.len(),
{
    if row.len() == 0 {
        chars
    } else {
        label_cell(label_row(chars, row.drop_last()), row.last())
    }
}

/// The text read from all rows, each row followed by a single space.
pub open spec fn label_rows(rows: Seq<Seq<CellContent>>) -> Seq<char>
    decreases rows.len(),
{
    if rows.len() == 0 {
        Seq::empty()
    } else {
        space_after(label_row(label_rows(rows.drop_last()), rows.last()))
    }
}

/// Whether the label text of `rows` can be cut at byte 41 when it is longer
/// than 44 bytes (byte 41 falls between two characters).
pub open spec fn label_cut_ok(rows: Seq<Seq<CellContent>>) -> bool {
    let t = trim(label_rows(rows));
    utf8_len(t) > 44 ==> utf8_len(prefix_within(t, 41)) == 41
}

/// The queue label of a message with the grid `rows`: its text, trimmed;
/// `(message)` when that is empty; cut to its first 41 bytes followed by
/// `...` when it is longer than 44 bytes.
pub open spec fn message_label(rows: Seq<Seq<CellContent>>) -> Seq<char> {
    let t = trim(label_rows(rows));
    if t.len() == 0 {
        "(message)"@
    } else if utf8_len(t) > 44 {
        prefix_within(t, 41) + "..."@
    } else {
        t
    }
}

fn push_space_after(chars: &mut Vec<char>)
    ensures
        final(chars)@ == space_after(old(chars)@),
{
    let n = chars.len();
    if n > 0 && chars[n - 1] != ' ' {
        chars.push(' ');
    }
}

/// The text that a message's grid reads as, trimmed: characters kept,
/// blanks and row ends as single spaces, colour tiles left out.
pub fn label_text(g: &Grid) -> (t: Vec<char>)
    ensures
        t@ == trim(label_rows(g@)),
{
    let rows = &g.0;
    let mut chars: Vec<char> = Vec::new();
    let mut r: usize = 0;
    assert(rows@.take(0) == Seq::<Vec<CellContent>>::empty());
    while r < rows.len()
        invariant
            0 <= r <= rows@.len(),
            rows@.len() == g@.len(),
            forall|k: int| 0 <= k < g@.len() ==> #[trigger] g@[k] == rows@[k]@,
            chars@ == label_rows(g@.take(r as int)),
        decreases rows@.len() - r,
    {
        let row = &rows[r];
        let ghost start = chars@;
        let mut c: usize = 0;
        assert(row@.take(0) == Seq::<CellContent>::empty());
        while c < row.len()
            invariant
                0 <= c <= row@.len(),
                chars@ == label_row(start, row@.take(c as int)),
            decreases row@.len() - c,
        {
            proof {
                assert(row@.take(c + 1).drop_last() == row@.take(c as int));
                assert(row@.take(c + 1).last() == row@[c as int]);
            }
            match row[c] {
                CellContent::Char(ch) => chars.push(ch),
                CellContent::Blank => push_space_after(&mut chars),
                CellContent::Color(_) => {},
            }
            c = c + 1;
        }
        push_space_after(&mut chars);
        proof {
            assert(row@.take(row@.len() as int) == row@);
            assert(g@.take(r + 1).drop_last() == g@.take(r as int));
            assert(g@.take(r + 1).last() == g@[r as int]);
        }
        r = r + 1;
    }
    assert(g@.take(rows@.len() as int) == g@);
    trim_chars(chars.as_slice())
}

/// Whether the label of `g` can be cut at byte 41 where it is longer than
/// 44 bytes (byte 41 falls between two characters).
pub fn label_can_be_cut(g: &Grid) -> (b: bool)
    ensures
        b == label_cut_ok(g@),
{
    let t = label_text(g);
    if !utf8_longer_than(t.as_slice(), 44) {
        return true;
    }
    let head = prefix_within_bytes(t.as_slice(), 41);
    utf8_longer_than(head.as_slice(), 40) && !utf8_longer_than(head.as_slice(), 41)
}

/// The queue label of a message whose grid is `grid`; `None` (a grid that
/// could not be read) gives `(message)`.
pub fn derive_message_label(grid: Option<&Grid>) -> (label: String)
    requires
        grid matches Some(g) ==> label_cut_ok(g@),
    ensures
        label@ == match grid {
            Some(g) => message_label(g@),
            None => "(message)"@,
        },
{
    let g = match grid {
        Some(g) => g,
        None => {
            let mut v: Vec<char> = Vec::new();
            push_str(&mut v, "(message)");
            return string_of(v.as_slice());
        },
    };
    let text = label_text(g);
    let mut out: Vec<char> = Vec::new();
    if text.len() == 0 {
        push_str(&mut out, "(message)");
    } else if utf8_longer_than(text.as_slice(), 44) {
        let head = prefix_within_bytes(text.as_slice(), 41);
        push_chars(&mut out, head.as_slice());
        push_str(&mut out, "...");
    } else {
        push_chars(&mut out, text.as_slice());
    }
    string_of(out.as_slice())
}

/// Whether `xs` and `ys` hold the same set of identifiers.
pub fn same_ids(xs: &[u128], ys: &[u128]) -> (b: bool)
    ensures
        b == (xs@.to_set() == ys@.to_set()),
{
    let a = all_contained(xs, ys);
    let b = all_contained(ys, xs);
    proof {
        if a && b {
            assert(xs@.to_set() =~= ys@.to_set());
        }
        if !a {
            let k = choose|k: int| 0 <= k < xs@.len() && !ys@.contains(xs@[k]);
            assert(xs@.to_set().contains(xs@[k]));
        }
        if !b {
            let k = choose|k: int| 0 <= k < ys@.len() && !xs@.contains(ys@[k]);
            assert(ys@.to_set().contains(ys@[k]));
        }
    }
    a && b
}

/// Whether every identifier in `xs` occurs in `ys`.
fn all_contained(xs: &[u128], ys: &[u128]) -> (b: bool)
    ensures
        b == (forall|k: int| 0 <= k < xs@.len() ==> ys@.contains(#[trigger] xs@[k])),
{
    let mut i: usize = 0;
    while i < xs.len()
        invariant
            0 <= i <= xs@.len(),
            forall|k: int| 0 <= k < i ==> ys@.contains(#[trigger] xs@[k]),
        decreases xs@.len() - i,
    {
        if !contains_id(ys, xs[i]) {
            return false;
        }
        i = i + 1;
    }
    true
}

/// Whether `id` occurs in `ys`.
fn contains_id(ys: &[u128], id: u128) -> (b: bool)
    ensures
        b == ys@.contains(id),
{
    let mut j: usize = 0;
    while j < ys.len()
        invariant
            0 <= j <= ys@.len(),
            forall|k: int| 0 <= k < j ==> ys@[k] != id,
        decreases ys@.len() - j,
    {
        if ys[j] == id {
            return true;
        }
        j = j + 1;
    }
    false
}

/// The message a reorder request is refused with when it does not name
/// exactly the current queue items.
pub open spec fn reorder_mismatch_message() -> Seq<char> {
    "order must contain exactly all current queue item IDs"@
}

/// Checks a reorder request against the identifiers of the current queue:
/// it must name exactly the same set of items.
pub fn validate_reorder(current: &[u128], order: &[u128]) -> (res: Result<(), String>)
    ensures
        res is Ok <==> current@.to_set() == order@.to_set(),
        res matches Err(m) ==> m@ == reorder_mismatch_message(),
{
    if same_ids(current, order) {
        Ok(())
    } else {
        let mut v: Vec<char> = Vec::new();
        push_str(&mut v, "order must contain exactly all current queue item IDs");
        Err(string_of(v.as_slice()))
    }
}

/// Byte order is irreflexive.
pub proof fn lemma_lex_irreflexive(a: Seq<u8>)
    ensures
        !lex_lt(a, a),
    decreases a.len(),
{
    if a.len() > 0 {
        lemma_lex_irreflexive(a.drop_first());
    }
}

/// Byte order is transitive.
pub proof fn lemma_lex_transitive(a: Seq<u8>, b: Seq<u8>, c: Seq<u8>)
    requires
        lex_lt(a, b),
        lex_lt(b, c),
    ensures
        lex_lt(a, c),
    decreases a.len(),
{
    if a.len() > 0 && b.len() > 0 && c.len() > 0 && a[0] == b[0] && b[0] == c[0] {
        lemma_lex_transitive(a.drop_first(), b.drop_first(), c.drop_first());
    }
}

/// Two different byte strings are ordered one way or the other.
pub proof fn lemma_lex_total(a: Seq<u8>, b: Seq<u8>)
    ensures
        a == b || lex_lt(a, b) || lex_lt(b, a),
    decreases a.len(),
{
    if a.len() > 0 && b.len() > 0 && a[0] == b[0] {
        lemma_lex_total(a.drop_first(), b.drop_first());
        if a.drop_first() == b.drop_first() {
            assert(a =~= seq![a[0]] + a.drop_first());
            assert(b =~= seq![b[0]] + b.drop_first());
        }
    } else if a.len() == 0 && b.len() == 0 {
        assert(a =~= b);
    }
}

/// Whether `a` may stand before `b` in a sorted queue.
pub open spec fn item_le(a: QueueItem, b: QueueItem) -> bool {
    !item_lt(b, a)
}

/// "May stand before" is transitive.
pub proof fn lemma_item_le_transitive(a: QueueItem, b: QueueItem, c: QueueItem)
    requires
        item_le(a, b),
        item_le(b, c),
    ensures
        item_le(a, c),
{
    let (ka, kb, kc) = (label_bytes(a), label_bytes(b), label_bytes(c));
    if item_lt(c, a) {
        lemma_lex_total(ka, kb);
        lemma_lex_total(kb, kc);
        if a.queue_position == b.queue_position && b.queue_position == c.queue_position {
            if lex_lt(ka, kb) && lex_lt(kb, kc) {
                lemma_lex_transitive(ka, kb, kc);
                lemma_lex_transitive(kc, ka, kb);
                lemma_lex_irreflexive(kb);
            } else if lex_lt(ka, kb) {
                lemma_lex_transitive(kc, ka, kb);
                lemma_lex_irreflexive(kb);
            } else if lex_lt(kb, kc) {
                lemma_lex_transitive(kb, kc, ka);
                lemma_lex_irreflexive(ka);
            } else {
                lemma_lex_irreflexive(ka);
            }
        }
    }
}

/// Any two items may stand one before the other.
pub proof fn lemma_item_le_total(a: QueueItem, b: QueueItem)
    ensures
        item_le(a, b) || item_le(b, a),
{
    if a.queue_position == b.queue_position && lex_lt(label_bytes(a), label_bytes(b)) && lex_lt(
        label_bytes(b),
        label_bytes(a),
    ) {
        lemma_lex_transitive(label_bytes(a), label_bytes(b), label_bytes(a));
        lemma_lex_irreflexive(label_bytes(a));
    }
}

/// Whether `q` is in queue order: no item comes strictly before one that
/// precedes it.
pub open spec fn is_queue_sorted(q: Seq<QueueItem>) -> bool {
    forall|i: int, j: int| 0 <= i < j < q.len() ==> item_le(#[trigger] q[i], #[trigger] q[j])
}

/// Inserting keeps the items: one more `x`, nothing else changed.
pub proof fn lemma_insert_sorted_items(s: Seq<QueueItem>, x: QueueItem)
    ensures
        insert_sorted(s, x).to_multiset() == s.to_multiset().insert(x),
        insert_sorted(s, x).len() == s.len() + 1,
    decreases s.len(),
{
    broadcast use vstd::seq_lib::group_to_multiset_ensures;

    if s.len() == 0 {
        assert(seq![x] == Seq::<QueueItem>::empty().push(x));
    } else if item_lt(x, s.last()) {
        lemma_insert_sorted_items(s.drop_last(), x);
        assert(s == s.drop_last().push(s.last()));
        assert(s.to_multiset() == s.drop_last().to_multiset().insert(s.last()));
        assert(insert_sorted(s, x).to_multiset() =~= s.to_multiset().insert(x));
    }
}

/// Inserting into a sorted sequence gives a sorted sequence.
pub proof fn lemma_insert_sorted_sorted(s: Seq<QueueItem>, x: QueueItem)
    requires
        is_queue_sorted(s),
    ensures
        is_queue_sorted(insert_sorted(s, x)),
    decreases s.len(),
{
    broadcast use vstd::seq_lib::group_to_multiset_ensures;

    if s.len() == 0 {
    } else if item_lt(x, s.last()) {
        let s0 = s.drop_last();
        let l = s.last();
        assert(is_queue_sorted(s0)) by {
            assert forall|i: int, j: int| 0 <= i < j < s0.len() implies item_le(
                #[trigger] s0[i],
                #[trigger] s0[j],
            ) by {
                assert(s0[i] == s[i] && s0[j] == s[j]);
            }
        }
        lemma_insert_sorted_sorted(s0, x);
        lemma_insert_sorted_items(s0, x);
        let t = insert_sorted(s0, x);
        assert forall|k: int| 0 <= k < t.len() implies item_le(#[trigger] t[k], l) by {
            assert(t.to_multiset().count(t[k]) > 0);
            assert(s0.to_multiset().insert(x).count(t[k]) > 0);
            if t[k] != x {
                assert(s0.to_multiset().count(t[k]) > 0);
                assert(s0.contains(t[k]));
                let m = choose|m: int| 0 <= m < s0.len() && s0[m] == t[k];
                assert(s[m] == s0[m]);
                assert(s[s.len() - 1] == l);
            } else {
                lemma_lex_irreflexive(label_bytes(x));
                if x.queue_position == l.queue_position && lex_lt(label_bytes(l), label_bytes(x)) {
                    lemma_lex_transitive(label_bytes(x), label_bytes(l), label_bytes(x));
                }
            }
        }
        let r = t.push(l);
        assert forall|i: int, j: int| 0 <= i < j < r.len() implies item_le(
            #[trigger] r[i],
            #[trigger] r[j],
        ) by {
            if j == r.len() - 1 {
                assert(r[j] == l);
                assert(r[i] == t[i]);
            } else {
                assert(r[i] == t[i] && r[j] == t[j]);
            }
        }
    } else {
        let l = s.last();
        let r = s.push(x);
        assert forall|i: int, j: int| 0 <= i < j < r.len() implies item_le(
            #[trigger] r[i],
            #[trigger] r[j],
        ) by {
            if j == r.len() - 1 {
                assert(r[j] == x);
                assert(r[i] == s[i]);
                if i < s.len() - 1 {
                    assert(item_le(s[i], s[s.len() - 1]));
                    lemma_item_le_transitive(s[i], l, x);
                }
            } else {
                assert(r[i] == s[i] && r[j] == s[j]);
            }
        }
    }
}

/// The queue order is sorted by position, then label, and holds exactly the
/// given items.
pub proof fn lemma_queue_order_sorted_permutation(items: Seq<QueueItem>)
    ensures
        is_queue_sorted(queue_order(items)),
        queue_order(items).to_multiset() == items.to_multiset(),
        queue_order(items).len() == items.len(),
    decreases items.len(),
{
    broadcast use vstd::seq_lib::group_to_multiset_ensures;

    if items.len() > 0 {
        let rest = items.drop_last();
        lemma_queue_order_sorted_permutation(rest);
        lemma_insert_sorted_sorted(queue_order(rest), items.last());
        lemma_insert_sorted_items(queue_order(rest), items.last());
        assert(items == rest.push(items.last()));
    } else {
        assert(items.to_multiset() =~= Seq::<QueueItem>::empty().to_multiset());
    }
}

/// Advancing the rotation index by one moves to the next queue position,
/// wrapping after the last; advancing it by the queue length comes back to
/// the same item.
pub proof fn lemma_rotation_cycles(len: nat, index: i64)
    requires
        len > 0,
        0 <= index,
        index + len <= i64::MAX,
        index + len <= usize::MAX,
    ensures
        position_of(len, (index + 1) as i64) == (position_of(len, index) + 1) % (len as int),
        position_of(len, (index + len) as i64) == position_of(len, index),
{
    let i = index as int;
    let n = len as int;
    assert(((index + 1) as i64) as usize as int == i + 1);
    assert(((index + len) as i64) as usize as int == i + n);
    assert(index as usize as int == i);
    assert((i + 1) % n == (i % n + 1) % n) by {
        vstd::arithmetic::div_mod::lemma_add_mod_noop(i, 1, n);
        vstd::arithmetic::div_mod::lemma_add_mod_noop(i % n, 1, n);
        vstd::arithmetic::div_mod::lemma_mod_twice(i, n);
    }
    assert((i + n) % n == i % n) by {
        vstd::arithmetic::div_mod::lemma_mod_add_multiples_vanish(i, n);
    }
}

/// Whether `a` and `b` have the same sort key: position and label.
pub open spec fn same_key(a: QueueItem, b: QueueItem) -> bool {
    a.queue_position == b.queue_position && label_bytes(a) == label_bytes(b)
}

/// Inserting `x` adds it at the end of the items with its key and leaves
/// the order among the items of every key as it was.
proof fn lemma_insert_sorted_stable(s: Seq<QueueItem>, x: QueueItem, k: QueueItem)
    ensures
        insert_sorted(s, x).filter(|y: QueueItem| same_key(y, k)) == if same_key(x, k) {
            s.filter(|y: QueueItem| same_key(y, k)).push(x)
        } else {
            s.filter(|y: QueueItem| same_key(y, k))
        },
    decreases s.len(),
{
    reveal(Seq::filter);
    let p = |y: QueueItem| same_key(y, k);
    if s.len() == 0 {
        assert(insert_sorted(s, x) == seq![x]);
        assert(seq![x].drop_last() == Seq::<QueueItem>::empty());
        assert(seq![x].last() == x);
        assert(s.filter(p) == s);
        assert(Seq::<QueueItem>::empty().filter(p) == Seq::<QueueItem>::empty());
        assert(seq![x].filter(p) == (if p(x) {
            Seq::<QueueItem>::empty().filter(p).push(x)
        } else {
            Seq::<QueueItem>::empty().filter(p)
        }));
        assert(s == Seq::<QueueItem>::empty());
    } else if item_lt(x, s.last()) {
        let s0 = s.drop_last();
        let l = s.last();
        lemma_insert_sorted_stable(s0, x, k);
        let t = insert_sorted(s0, x);
        assert(insert_sorted(s, x) == t.push(l));
        assert(t.push(l).drop_last() == t);
        assert(t.push(l).last() == l);
        assert(t.push(l).filter(p) == (if p(l) {
            t.filter(p).push(l)
        } else {
            t.filter(p)
        }));
        if p(x) && p(l) {
            lemma_lex_irreflexive(label_bytes(x));
            assert(false);
        }
        assert(s.filter(p) == (if p(l) {
            s0.filter(p).push(l)
        } else {
            s0.filter(p)
        }));
    } else {
        assert(insert_sorted(s, x) == s.push(x));
        assert(s.push(x).drop_last() == s);
        assert(s.push(x).last() == x);
        assert(s.push(x).filter(p) == (if p(x) {
            s.filter(p).push(x)
        } else {
            s.filter(p)
        }));
    }
}

/// The queue order is stable and keeps every item: the items of each sort
/// key come out exactly as they came in, in the same order.
pub proof fn lemma_queue_order_stable(items: Seq<QueueItem>, k: QueueItem)
    ensures
        queue_order(items).filter(|y: QueueItem| same_key(y, k)) == items.filter(
            |y: QueueItem| same_key(y, k),
        ),
    decreases items.len(),
{
    reveal(Seq::filter);
    if items.len() > 0 {
        let rest = items.drop_last();
        lemma_queue_order_stable(rest, k);
        lemma_insert_sorted_stable(queue_order(rest), items.last(), k);
    }
}

} // verus!
