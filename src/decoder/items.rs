//! The binary item list handed to the image composer, in molecule's
//! encoding: `Color`, `URI` and `RawImage` are byte vectors, `Item` is a
//! union of the three in that order, and `ItemVec` is a vector of items.
//! Every header number is a 32-bit little-endian integer.
use vstd::prelude::*;

use vstd::arithmetic::div_mod::{lemma_add_mod_noop, lemma_add_mod_noop_right};
use vstd::utf8::encode_utf8;

use super::types::ImageType;

verus! {

/// The four little-endian bytes of `n`.
pub open spec fn le32(n: u32) -> Seq<u8> {
    seq![
        (n % 256) as u8,
        ((n / 256) % 256) as u8,
        ((n / 65536) % 256) as u8,
        ((n / 16777216) % 256) as u8,
    ]
}

/// A size or count written as a header number: taken modulo 2^32, as
/// molecule's builders do.
pub open spec fn header_number(n: nat) -> Seq<u8> {
    le32((n % 0x1_0000_0000) as u32)
}

/// The union tag of an item of type `t`.
pub open spec fn item_tag(t: ImageType) -> u32 {
    match t {
        ImageType::ColorCode => 0,
        ImageType::URI => 1,
        ImageType::RawImage => 2,
    }
}

/// One item: its tag, then a byte vector holding the content.
pub open spec fn item_bytes(t: ImageType, content: Seq<char>) -> Seq<u8> {
    le32(item_tag(t)) + header_number(encode_utf8(content).len()) + encode_utf8(content)
}

/// The summed length of a sequence of byte strings.
pub open spec fn total_len(items: Seq<Seq<u8>>) -> nat
    decreases items.len(),
{
    if items.len() == 0 {
        0
    } else {
        total_len(items.drop_last()) + items.last().len()
    }
}

/// A sequence of byte strings, one after the other.
pub open spec fn concat(items: Seq<Seq<u8>>) -> Seq<u8>
    decreases items.len(),
{
    if items.len() == 0 {
        Seq::empty()
    } else {
        concat(items.drop_last()) + items.last()
    }
}

/// The offset of each item, counted from `base` for the first one.
pub open spec fn offsets(items: Seq<Seq<u8>>, base: nat) -> Seq<u8>
    decreases items.len(),
{
    if items.len() == 0 {
        Seq::empty()
    } else {
        offsets(items.drop_last(), base) + header_number(base + total_len(items.drop_last()))
    }
}

/// A vector of items: the total size, the offset of each item, the items.
pub open spec fn item_vec_bytes(items: Seq<Seq<u8>>) -> Seq<u8> {
    let header = 4 * (items.len() + 1);
    header_number(header + total_len(items)) + offsets(items, header) + concat(items)
}

/// `(a + b) mod 2^32`.
fn add_wrapped(a: u32, b: usize) -> (r: u32)
    ensures
        r as int == (a + b) % 0x1_0000_0000,
{
    let b_low = (b as u64) % 0x1_0000_0000;
    proof {
        lemma_add_mod_noop_right(a as int, b as int, 0x1_0000_0000);
    }
    ((a as u64 + b_low) % 0x1_0000_0000) as u32
}

/// Adds `b` to a running total that is kept modulo 2^32.
proof fn lemma_wrapped_sum(total: nat, acc: u32, b: nat)
    requires
        acc as int == total % 0x1_0000_0000,
    ensures
        (acc + b) % 0x1_0000_0000 == (total + b) % 0x1_0000_0000,
{
    lemma_add_mod_noop_right(acc as int, b as int, 0x1_0000_0000);
    lemma_add_mod_noop(total as int, b as int, 0x1_0000_0000);
    lemma_add_mod_noop_right(total as int % 0x1_0000_0000, b as int, 0x1_0000_0000);
}

fn push_le32(out: &mut Vec<u8>, n: u32)
    ensures
        final(out)@ == old(out)@ + le32(n),
{
    out.push((n % 256) as u8);
    out.push(((n / 256) % 256) as u8);
    out.push(((n / 65536) % 256) as u8);
    out.push(((n / 16777216) % 256) as u8);
    assert(final(out)@ =~= old(out)@ + le32(n));
}

/// Encodes one item of type `type_` carrying the bytes of `content`.
pub fn encode_item(type_: ImageType, content: &String) -> (r: Vec<u8>)
    ensures
        r@ == item_bytes(type_, content@),
{
    let bytes = content.as_str().as_bytes();
    let mut out: Vec<u8> = Vec::new();
    let tag: u32 = match type_ {
        ImageType::ColorCode => 0,
        ImageType::URI => 1,
        ImageType::RawImage => 2,
    };
    push_le32(&mut out, tag);
    push_le32(&mut out, add_wrapped(0, bytes.len()));
    let ghost prefix = out@;
    let mut i: usize = 0;
    while i < bytes.len()
        invariant
            i <= bytes@.len(),
            bytes@ == encode_utf8(content@),
            prefix == le32(tag) + header_number(bytes@.len()),
            tag == item_tag(type_),
            out@ == prefix + bytes@.take(i as int),
        decreases bytes@.len() - i,
    {
        out.push(bytes[i]);
        assert(bytes@.take(i + 1) =~= bytes@.take(i as int).push(bytes@[i as int]));
        i += 1;
    }
    assert(bytes@.take(i as int) =~= bytes@);
    out
}

/// Encodes an ordered list of encoded items as an item vector.
pub fn encode_item_vec(items: &Vec<Vec<u8>>) -> (r: Vec<u8>)
    ensures
        r@ == item_vec_bytes(items@.map_values(|v: Vec<u8>| v@)),
{
    let ghost views = items@.map_values(|v: Vec<u8>| v@);
    let ghost header_size: nat = 4 * (items@.len() + 1);
    // The header size, 4 bytes for the total and 4 for each offset.
    let mut header: u32 = 4;
    let mut k: usize = 0;
    while k < items.len()
        invariant
            k <= items@.len(),
            header as int == (4 * (k + 1)) % 0x1_0000_0000,
        decreases items@.len() - k,
    {
        proof {
            lemma_wrapped_sum((4 * (k + 1)) as nat, header, 4);
        }
        header = add_wrapped(header, 4);
        k += 1;
    }
    // Offsets, and the running total that ends as the whole size.
    let mut offsets_out: Vec<u8> = Vec::new();
    let mut body: Vec<u8> = Vec::new();
    let mut running: u32 = header;
    let mut i: usize = 0;
    while i < items.len()
        invariant
            i <= items@.len(),
            views == items@.map_values(|v: Vec<u8>| v@),
            header_size == 4 * (items@.len() + 1),
            running as int == (header_size + total_len(views.take(i as int))) % 0x1_0000_0000,
            offsets_out@ == offsets(views.take(i as int), header_size),
            body@ == concat(views.take(i as int)),
        decreases items@.len() - i,
    {
        let item = &items[i];
        let ghost before = views.take(i as int);
        assert(views.take(i + 1).drop_last() =~= before);
        assert(views.take(i + 1).last() == item@);
        push_le32(&mut offsets_out, running);
        proof {
            lemma_wrapped_sum(header_size + total_len(before), running, item@.len());
        }
        running = add_wrapped(running, item.len());
        let ghost body_before = body@;
        let mut j: usize = 0;
        while j < item.len()
            invariant
                j <= item@.len(),
                body@ == body_before + item@.take(j as int),
            decreases item@.len() - j,
        {
            body.push(item[j]);
            assert(item@.take(j + 1) =~= item@.take(j as int).push(item@[j as int]));
            j += 1;
        }
        assert(item@.take(j as int) =~= item@);
        i += 1;
    }
    assert(views.take(i as int) =~= views);
    let mut out: Vec<u8> = Vec::new();
    push_le32(&mut out, running);
    out.append(&mut offsets_out);
    out.append(&mut body);
    out
}

} // verus!
