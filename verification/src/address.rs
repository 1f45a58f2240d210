//! The text of the data of an address record: a dotted quad for four
//! bytes, groups of hexadecimal digits for sixteen, a list of bytes for
//! any other length.
use vstd::prelude::*;
use crate::text::{decimal, hex_pair, joined, push_chars, push_decimal, push_hex, replace, replaced};

verus! {

/// The four numbers of an IPv4 address, each in decimal.
pub open spec fn quad_parts(r: Seq<u8>) -> Seq<Seq<char>> {
    Seq::new(4, |i: int| decimal(r[i] as nat))
}

/// Four bytes as a dotted quad.
pub open spec fn dotted_quad(r: Seq<u8>) -> Seq<char> {
    joined(quad_parts(r), seq!['.'])
}

/// The eight groups of an IPv6 address, each of four hexadecimal digits.
pub open spec fn group_parts(r: Seq<u8>) -> Seq<Seq<char>> {
    Seq::new(8, |i: int| hex_pair(r[2 * i]) + hex_pair(r[2 * i + 1]))
}

/// Sixteen bytes as eight groups with a colon between each two.
pub open spec fn grouped(r: Seq<u8>) -> Seq<char> {
    joined(group_parts(r), seq![':'])
}

/// Sixteen bytes as groups in which runs of zeros are shortened as far as
/// two replacements do it: every group of four zeros is dropped, then
/// every pair of colons becomes one colon.
pub open spec fn squeezed(r: Seq<u8>) -> Seq<char> {
    replaced(
        replaced(grouped(r), seq!['0', '0', '0', '0'], Seq::empty()),
        seq![':', ':'],
        seq![':'],
    )
}

/// The bytes, two hexadecimal digits each.
pub open spec fn pair_parts(r: Seq<u8>) -> Seq<Seq<char>> {
    Seq::new(r.len(), |i: int| hex_pair(r[i]))
}

/// The bytes as a list in square brackets, with a comma and a space
/// between each two.
pub open spec fn hex_list(r: Seq<u8>) -> Seq<char> {
    seq!['['] + joined(pair_parts(r), seq![',', ' ']) + seq![']']
}

/// The text of the data of an address record.
pub open spec fn address_text(r: Seq<u8>) -> Seq<char> {
    if r.len() == 4 {
        dotted_quad(r)
    } else if r.len() == 16 {
        squeezed(r)
    } else {
        hex_list(r)
    }
}

/// What one more part adds to a joined list.
pub proof fn lemma_joined_step(parts: Seq<Seq<char>>, sep: Seq<char>, i: int)
    requires
        0 <= i < parts.len(),
    ensures
        joined(parts.take(i + 1), sep) == if i == 0 {
            parts[0]
        } else {
            joined(parts.take(i), sep) + sep + parts[i]
        },
{
    assert(parts.take(i + 1).drop_last() =~= parts.take(i));
    assert(parts.take(i + 1).last() == parts[i]);
}

/// Four bytes as a dotted quad.
fn quad(r: &[u8]) -> (out: Vec<char>)
    requires
        r@.len() == 4,
    ensures
        out@ == dotted_quad(r@),
{
    let ghost parts = quad_parts(r@);
    let mut out: Vec<char> = Vec::new();
    let mut i: usize = 0;
    while i < 4
        invariant
            i <= 4,
            r@.len() == 4,
            parts == quad_parts(r@),
            out@ == joined(parts.take(i as int), seq!['.']),
        decreases 4 - i,
    {
        let ghost before = out@;
        if i > 0 {
            out.push('.');
        }
        push_decimal(&mut out, r[i] as u16);
        proof {
            lemma_joined_step(parts, seq!['.'], i as int);
            if i > 0 {
                assert(out@ =~= before + seq!['.'] + parts[i as int]);
            } else {
                assert(out@ =~= parts[0]);
            }
        }
        i += 1;
    }
    assert(parts.take(4) =~= parts);
    out
}

/// Sixteen bytes as eight groups with a colon between each two.
fn groups(r: &[u8]) -> (out: Vec<char>)
    requires
        r@.len() == 16,
    ensures
        out@ == grouped(r@),
{
    let ghost parts = group_parts(r@);
    let mut out: Vec<char> = Vec::new();
    let mut i: usize = 0;
    while i < 8
        invariant
            i <= 8,
            r@.len() == 16,
            parts == group_parts(r@),
            out@ == joined(parts.take(i as int), seq![':']),
        decreases 8 - i,
    {
        let ghost before = out@;
        if i > 0 {
            out.push(':');
        }
        push_hex(&mut out, r[2 * i]);
        push_hex(&mut out, r[2 * i + 1]);
        proof {
            lemma_joined_step(parts, seq![':'], i as int);
            if i > 0 {
                assert(out@ =~= before + seq![':'] + parts[i as int]);
            } else {
                assert(out@ =~= parts[0]);
            }
        }
        i += 1;
    }
    assert(parts.take(8) =~= parts);
    out
}

/// The bytes as a list in square brackets.
fn list(r: &[u8]) -> (out: Vec<char>)
    ensures
        out@ == hex_list(r@),
{
    let ghost parts = pair_parts(r@);
    let n: usize = r.len();
    let mut out: Vec<char> = Vec::new();
    out.push('[');
    let mut i: usize = 0;
    while i < n
        invariant
            i <= n,
            n == r@.len(),
            parts == pair_parts(r@),
            out@ == seq!['['] + joined(parts.take(i as int), seq![',', ' ']),
        decreases n - i,
    {
        let ghost before = out@;
        if i > 0 {
            out.push(',');
            out.push(' ');
        }
        push_hex(&mut out, r[i]);
        proof {
            lemma_joined_step(parts, seq![',', ' '], i as int);
            if i > 0 {
                assert(out@ =~= before + seq![',', ' '] + parts[i as int]);
                assert(out@ =~= seq!['['] + (joined(parts.take(i as int), seq![',', ' '])
                    + seq![',', ' '] + parts[i as int]));
            } else {
                assert(joined(parts.take(0), seq![',', ' ']) =~= Seq::<char>::empty());
                assert(out@ =~= seq!['['] + parts[0]);
            }
        }
        i += 1;
    }
    assert(parts.take(n as int) =~= parts);
    out.push(']');
    out
}

/// The text of the data of an address record: a dotted quad for four
/// bytes, shortened groups for sixteen, a list of the bytes otherwise.
pub fn address(r: &[u8]) -> (out: String)
    ensures
        out@ == address_text(r@),
{
    let chars: Vec<char> = if r.len() == 4 {
        quad(r)
    } else if r.len() == 16 {
        let full: Vec<char> = groups(r);
        let zeros: Vec<char> = vec!['0', '0', '0', '0'];
        let nothing: Vec<char> = Vec::new();
        let colons: Vec<char> = vec![':', ':'];
        let colon: Vec<char> = vec![':'];
        assert(zeros@ =~= seq!['0', '0', '0', '0']);
        assert(nothing@ =~= Seq::<char>::empty());
        assert(colons@ =~= seq![':', ':']);
        assert(colon@ =~= seq![':']);
        let dropped: Vec<char> = replace(&full, &zeros, &nothing);
        replace(&dropped, &colons, &colon)
    } else {
        list(r)
    };
    let mut out = String::new();
    push_chars(&mut out, &chars);
    assert(out@ =~= chars@);
    out
}

} // verus!
