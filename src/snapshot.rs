use vstd::prelude::*;
use crate::collab::SyncError;
use crate::crdt::{Item, ItemView};
use crate::envelope::{be_bytes_u32, be_u32, push_be_u32, read_be_u32};

verus! {

/// The snapshot format that this library writes and reads.
pub const SNAPSHOT_VERSION: u8 = 1;

pub open spec fn be_u64(b: Seq<u8>, off: int) -> nat {
    be_u32(b, off) * 0x1_0000_0000 + be_u32(b, off + 4)
}

pub open spec fn be_bytes_u64(n: u64) -> Seq<u8> {
    be_bytes_u32((n / 0x1_0000_0000) as u32) + be_bytes_u32((n % 0x1_0000_0000) as u32)
}

/// The views of a list of items.
pub open spec fn views(s: Seq<Item>) -> Seq<ItemView> {
    s.map_values(|x: Item| x@)
}

/// One item as bytes: client, clock, root, content length, content.
pub open spec fn item_bytes(x: ItemView) -> Seq<u8> {
    be_bytes_u64(x.0) + be_bytes_u64(x.1) + be_bytes_u32(x.2) + be_bytes_u32(x.3.len() as u32) + x.3
}

pub open spec fn items_bytes(s: Seq<ItemView>) -> Seq<u8>
    decreases s.len(),
{
    if s.len() == 0 {
        Seq::empty()
    } else {
        items_bytes(s.drop_last()) + item_bytes(s.last())
    }
}

/// A snapshot as bytes: the format version, the item count, the items.
pub open spec fn snapshot_bytes(s: Seq<ItemView>) -> Seq<u8> {
    seq![SNAPSHOT_VERSION] + be_bytes_u32(s.len() as u32) + items_bytes(s)
}

/// The item that starts at `off`, with the offset after it.
pub open spec fn parse_item(b: Seq<u8>, off: nat) -> Option<(ItemView, nat)> {
    if off + 24 > b.len() {
        None
    } else {
        let n = be_u32(b, off + 20int);
        if off + 24 + n > b.len() {
            None
        } else {
            Some((
                (be_u64(b, off as int) as u64, be_u64(b, off + 8int) as u64, be_u32(b, off + 16int) as u32,
                b.subrange(off + 24int, off + 24int + n)),
                off + 24 + n,
            ))
        }
    }
}

/// `count` items one after another from `off`, with the offset after them.
pub open spec fn parse_items(b: Seq<u8>, off: nat, count: nat) -> Option<(Seq<ItemView>, nat)>
    decreases count,
{
    if count == 0 {
        Some((Seq::empty(), off))
    } else {
        match parse_items(b, off, (count - 1) as nat) {
            None => None,
            Some((s, end)) => match parse_item(b, end) {
                None => None,
                Some((x, end2)) => Some((s.push(x), end2)),
            },
        }
    }
}

/// The items that a snapshot holds, or `None` where the bytes are not a
/// snapshot of this format: too short, another version, a truncated item,
/// or bytes after the last item.
pub open spec fn parse_snapshot(b: Seq<u8>) -> Option<Seq<ItemView>> {
    if b.len() < 5 || b[0] != SNAPSHOT_VERSION {
        None
    } else {
        match parse_items(b, 5, be_u32(b, 1)) {
            Some((s, end)) => if end == b.len() { Some(s) } else { None },
            None => None,
        }
    }
}

pub(crate) fn read_be_u64(b: &[u8], off: usize) -> (r: u64)
    requires
        off + 8 <= b@.len(),
    ensures
        r as nat == be_u64(b@, off as int),
{
    let len = b.len();
    assert(off + 4 <= len);
    let hi = read_be_u32(b, off) as u64;
    let lo = read_be_u32(b, off + 4) as u64;
    assert(hi * 0x1_0000_0000 + lo <= u64::MAX) by (nonlinear_arith)
        requires
            hi <= 0xffff_ffff,
            lo <= 0xffff_ffff,
    ;
    hi * 0x1_0000_0000 + lo
}

fn push_be_u64(out: &mut Vec<u8>, n: u64)
    ensures
        final(out)@ == old(out)@ + be_bytes_u64(n),
{
    push_be_u32(out, (n / 0x1_0000_0000) as u32);
    push_be_u32(out, (n % 0x1_0000_0000) as u32);
    assert(final(out)@ =~= old(out)@ + be_bytes_u64(n));
}

fn push_all(out: &mut Vec<u8>, b: &[u8])
    ensures
        final(out)@ == old(out)@ + b@,
{
    let mut i: usize = 0;
    while i < b.len()
        invariant
            i <= b@.len(),
            out@ == old(out)@ + b@.subrange(0, i as int),
        decreases b@.len() - i,
    {
        out.push(b[i]);
        assert(b@.subrange(0, i + 1) == b@.subrange(0, i as int).push(b@[i as int]));
        assert(out@ =~= old(out)@ + b@.subrange(0, i + 1));
        i = i + 1;
    }
    assert(b@.subrange(0, b@.len() as int) == b@);
}

fn copy_range(b: &[u8], from: usize, to: usize) -> (r: Vec<u8>)
    requires
        from <= to <= b@.len(),
    ensures
        r@ == b@.subrange(from as int, to as int),
{
    let mut r: Vec<u8> = Vec::new();
    let mut i: usize = from;
    while i < to
        invariant
            from <= i <= to,
            to <= b@.len(),
            r@ == b@.subrange(from as int, i as int),
        decreases to - i,
    {
        r.push(b[i]);
        assert(b@.subrange(from as int, i + 1) == b@.subrange(from as int, i as int).push(b@[i as int]));
        i = i + 1;
    }
    r
}

/// Writes items as a snapshot.
pub fn encode_snapshot(items: &Vec<Item>) -> (r: Vec<u8>)
    requires
        items@.len() <= u32::MAX,
        forall|i: int| 0 <= i < items@.len() ==> (#[trigger] items@[i]).content@.len() <= u32::MAX,
    ensures
        r@ == snapshot_bytes(views(items@)),
{
    let mut out: Vec<u8> = Vec::new();
    out.push(SNAPSHOT_VERSION);
    push_be_u32(&mut out, items.len() as u32);
    let ghost head = out@;
    let mut i: usize = 0;
    while i < items.len()
        invariant
            i <= items@.len(),
            items@.len() <= u32::MAX,
            forall|k: int| 0 <= k < items@.len() ==> (#[trigger] items@[k]).content@.len() <= u32::MAX,
            head == seq![SNAPSHOT_VERSION] + be_bytes_u32(items@.len() as u32),
            out@ == head + items_bytes(views(items@.take(i as int))),
        decreases items@.len() - i,
    {
        let it = &items[i];
        push_be_u64(&mut out, it.client);
        push_be_u64(&mut out, it.clock);
        push_be_u32(&mut out, it.root);
        push_be_u32(&mut out, it.content.len() as u32);
        push_all(&mut out, it.content.as_slice());
        proof {
            let v = views(items@.take(i + 1));
            assert(v.drop_last() =~= views(items@.take(i as int)));
            assert(v.last() == it@);
            assert(out@ =~= head + items_bytes(v));
        }
        i = i + 1;
    }
    assert(items@.take(items@.len() as int) == items@);
    assert(views(items@).len() == items@.len());
    out
}

/// Reads a snapshot back into items.
pub fn decode_snapshot(b: &[u8]) -> (r: Result<Vec<Item>, SyncError>)
    ensures
        match r {
            Ok(items) => parse_snapshot(b@) == Some(views(items@)),
            Err(e) => e == SyncError::Decode && parse_snapshot(b@) is None,
        },
{
    if b.len() < 5 || b[0] != SNAPSHOT_VERSION {
        return Err(SyncError::Decode);
    }
    let count = read_be_u32(b, 1);
    let mut items: Vec<Item> = Vec::new();
    let mut cur: usize = 5;
    let mut i: u32 = 0;
    while i < count
        invariant
            i <= count,
            count as nat == be_u32(b@, 1),
            cur <= b@.len(),
            b@.len() >= 5,
            parse_items(b@, 5, i as nat) == Some((views(items@), cur as nat)),
        decreases count - i,
    {
        if b.len() - cur < 24 {
            proof {
                lemma_parse_items_fails_after(b@, (i + 1) as nat, i as nat, count as nat);
            }
            return Err(SyncError::Decode);
        }
        let client = read_be_u64(b, cur);
        let clock = read_be_u64(b, cur + 8);
        let root = read_be_u32(b, cur + 16);
        let n = read_be_u32(b, cur + 20) as usize;
        if b.len() - cur - 24 < n {
            proof {
                lemma_parse_items_fails_after(b@, (i + 1) as nat, i as nat, count as nat);
            }
            return Err(SyncError::Decode);
        }
        let content = copy_range(b, cur + 24, cur + 24 + n);
        let ghost before = items@;
        items.push(Item { client, clock, root, content });
        proof {
            assert(views(items@) =~= views(before).push(items@.last()@));
        }
        cur = cur + 24 + n;
        i = i + 1;
    }
    if cur != b.len() {
        return Err(SyncError::Decode);
    }
    Ok(items)
}

proof fn lemma_parse_items_fails_after(b: Seq<u8>, failed: nat, k: nat, count: nat)
    requires
        parse_items(b, 5, failed) is None,
        failed == k + 1,
        k < count,
    ensures
        parse_items(b, 5, count) is None,
    decreases count - failed,
{
    if count > failed {
        lemma_parse_items_fails_after(b, failed, k, (count - 1) as nat);
    }
}

proof fn lemma_be_u32_at(b: Seq<u8>, off: int, n: u32)
    requires
        0 <= off,
        off + 4 <= b.len(),
        b.subrange(off, off + 4) == be_bytes_u32(n),
    ensures
        be_u32(b, off) == n as nat,
{
    crate::envelope::lemma_be_round_trip(n);
    let w = be_bytes_u32(n);
    assert(b[off] == b.subrange(off, off + 4)[0]);
    assert(b[off + 1] == b.subrange(off, off + 4)[1]);
    assert(b[off + 2] == b.subrange(off, off + 4)[2]);
    assert(b[off + 3] == b.subrange(off, off + 4)[3]);
}

proof fn lemma_be_u64_at(b: Seq<u8>, off: int, n: u64)
    requires
        0 <= off,
        off + 8 <= b.len(),
        b.subrange(off, off + 8) == be_bytes_u64(n),
    ensures
        be_u64(b, off) == n as nat,
{
    let hi = (n / 0x1_0000_0000) as u32;
    let lo = (n % 0x1_0000_0000) as u32;
    assert(b.subrange(off, off + 4) =~= b.subrange(off, off + 8).subrange(0, 4));
    assert(be_bytes_u64(n).subrange(0, 4) =~= be_bytes_u32(hi));
    assert(b.subrange(off + 4, off + 8) =~= b.subrange(off, off + 8).subrange(4, 8));
    assert(be_bytes_u64(n).subrange(4, 8) =~= be_bytes_u32(lo));
    lemma_be_u32_at(b, off, hi);
    lemma_be_u32_at(b, off + 4, lo);
    assert((hi as nat) * 0x1_0000_0000 + (lo as nat) == n as nat) by (nonlinear_arith)
        requires
            hi as nat == n as nat / 0x1_0000_0000,
            lo as nat == n as nat % 0x1_0000_0000,
    ;
}

proof fn lemma_parse_item_at(b: Seq<u8>, off: int, x: ItemView)
    requires
        0 <= off,
        off + item_bytes(x).len() <= b.len(),
        x.3.len() <= u32::MAX,
        b.subrange(off, off + item_bytes(x).len()) == item_bytes(x),
    ensures
        parse_item(b, off as nat) == Some((x, (off + item_bytes(x).len()) as nat)),
{
    let w = item_bytes(x);
    let n = x.3.len();
    assert(w.len() == 24 + n);
    assert(b.subrange(off, off + 8) =~= w.subrange(0, 8));
    assert(w.subrange(0, 8) =~= be_bytes_u64(x.0));
    lemma_be_u64_at(b, off, x.0);
    assert(b.subrange(off + 8, off + 16) =~= w.subrange(8, 16));
    assert(w.subrange(8, 16) =~= be_bytes_u64(x.1));
    lemma_be_u64_at(b, off + 8, x.1);
    assert(b.subrange(off + 16, off + 20) =~= w.subrange(16, 20));
    assert(w.subrange(16, 20) =~= be_bytes_u32(x.2));
    lemma_be_u32_at(b, off + 16, x.2);
    assert(b.subrange(off + 20, off + 24) =~= w.subrange(20, 24));
    assert(w.subrange(20, 24) =~= be_bytes_u32(n as u32));
    lemma_be_u32_at(b, off + 20, n as u32);
    assert(b.subrange(off + 24, off + 24 + n) =~= w.subrange(24, 24 + n as int));
    assert(w.subrange(24, 24 + n as int) =~= x.3);
}

proof fn lemma_parse_items_at(b: Seq<u8>, start: int, s: Seq<ItemView>)
    requires
        0 <= start,
        start + items_bytes(s).len() <= b.len(),
        forall|i: int| 0 <= i < s.len() ==> (#[trigger] s[i]).3.len() <= u32::MAX,
        b.subrange(start, start + items_bytes(s).len()) == items_bytes(s),
    ensures
        parse_items(b, start as nat, s.len()) == Some((s, (start + items_bytes(s).len()) as nat)),
    decreases s.len(),
{
    if s.len() > 0 {
        let init = s.drop_last();
        let x = s.last();
        let wi = items_bytes(init);
        let wx = item_bytes(x);
        assert(items_bytes(s) == wi + wx);
        assert(b.subrange(start, start + wi.len()) =~= items_bytes(s).subrange(0, wi.len() as int));
        assert(items_bytes(s).subrange(0, wi.len() as int) =~= wi);
        assert forall|i: int| 0 <= i < init.len() implies (#[trigger] init[i]).3.len() <= u32::MAX by {
            assert(init[i] == s[i]);
        }
        lemma_parse_items_at(b, start, init);
        let mid = start + wi.len();
        assert(b.subrange(mid, mid + wx.len()) =~= items_bytes(s).subrange(wi.len() as int, (wi.len() + wx.len()) as int));
        assert(items_bytes(s).subrange(wi.len() as int, (wi.len() + wx.len()) as int) =~= wx);
        assert(x == s[s.len() - 1]);
        lemma_parse_item_at(b, mid, x);
        assert(init.push(x) =~= s);
    } else {
        assert(s =~= Seq::<ItemView>::empty());
    }
}

/// Reading back what the snapshot writer wrote gives the same items, in
/// the same order, for every list that fits the format's length fields.
pub proof fn lemma_snapshot_round_trip(s: Seq<ItemView>)
    requires
        s.len() <= u32::MAX,
        forall|i: int| 0 <= i < s.len() ==> (#[trigger] s[i]).3.len() <= u32::MAX,
    ensures
        parse_snapshot(snapshot_bytes(s)) == Some(s),
{
    let b = snapshot_bytes(s);
    let w = items_bytes(s);
    assert(b.len() == 5 + w.len());
    assert(b.subrange(1, 5) =~= be_bytes_u32(s.len() as u32));
    lemma_be_u32_at(b, 1, s.len() as u32);
    assert(b.subrange(5, 5 + w.len() as int) =~= w);
    lemma_parse_items_at(b, 5, s);
}

} // verus!
