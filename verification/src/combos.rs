//! Bookkeeping of parameter sweeps: folder names, which parameters are still open, and
//! the subsets of improving parameters that a combination run tries (one per bit mask).

use vstd::prelude::*;
use crate::text::{chars_of, push_char, push_str, str_eq};

verus! {

/// `s` with every '.' replaced by "__".
pub open spec fn dots_to_underscores(s: Seq<char>) -> Seq<char>
    decreases s.len(),
{
    if s.len() == 0 {
        s
    } else {
        let rest = dots_to_underscores(s.drop_last());
        if s.last() == '.' { rest + seq!['_', '_'] } else { rest.push(s.last()) }
    }
}

/// Folder name of a parameter in a sweep: its dot path with every '.' written "__".
pub fn param_folder_name(param: &str) -> (res: String)
    ensures
        res@ == dots_to_underscores(param@),
{
    let v = chars_of(param);
    let mut out = String::new();
    let mut i: usize = 0;
    while i < v.len()
        invariant
            v@ == param@,
            i <= v@.len(),
            out@ == dots_to_underscores(v@.take(i as int)),
        decreases v@.len() - i,
    {
        let c = v[i];
        proof {
            assert(v@.take(i + 1).drop_last() =~= v@.take(i as int));
        }
        if c == '.' {
            push_char(&mut out, '_');
            push_char(&mut out, '_');
            proof {
                assert(out@ =~= dots_to_underscores(v@.take(i + 1)));
            }
        } else {
            push_char(&mut out, c);
        }
        i = i + 1;
    }
    proof {
        assert(v@.take(v@.len() as int) =~= v@);
    }
    out
}

/// `s` with every leading copy of the non-empty `prefix` removed.
pub open spec fn trim_prefix_copies(s: Seq<char>, prefix: Seq<char>) -> Seq<char>
    decreases s.len(),
{
    if prefix.len() > 0 && prefix.len() <= s.len() && s.take(prefix.len() as int) == prefix {
        trim_prefix_copies(s.skip(prefix.len() as int), prefix)
    } else {
        s
    }
}

/// `s` with every leading `prefix` removed (`trim_start_matches`).
pub fn trim_start_copies(s: &str, prefix: &str) -> (res: String)
    ensures
        res@ == trim_prefix_copies(s@, prefix@),
{
    let v = chars_of(s);
    let p = chars_of(prefix);
    let mut start: usize = 0;
    let plen = p.len();
    proof {
        assert(v@.skip(0) =~= v@);
    }
    if plen > 0 {
        loop
            invariant
                v@ == s@,
                p@ == prefix@,
                plen == p@.len(),
                plen > 0,
                start <= v@.len(),
                trim_prefix_copies(s@, prefix@) == trim_prefix_copies(v@.skip(start as int), p@),
            ensures
                start <= v@.len(),
                trim_prefix_copies(s@, prefix@) == v@.skip(start as int),
            decreases v@.len() - start,
        {
            if v.len() - start < plen {
                break;
            }
            let mut k: usize = 0;
            while k < plen
                invariant
                    v@ == s@,
                    p@ == prefix@,
                    plen == p@.len(),
                    start + plen <= v.len(),
                    k <= plen,
                    v@.subrange(start as int, start + k) =~= p@.take(k as int),
                ensures
                    k <= plen,
                    v@.subrange(start as int, start + k) =~= p@.take(k as int),
                    k < plen ==> v@[start + k] != p@[k as int],
                decreases plen - k,
            {
                if v[start + k] != p[k] {
                    break;
                }
                proof {
                    assert(v@.subrange(start as int, start + k + 1) =~= v@.subrange(start as int, start + k).push(v@[start + k]));
                    assert(p@.take(k + 1) =~= p@.take(k as int).push(p@[k as int]));
                }
                k = k + 1;
            }
            proof {
                assert(p@.take(plen as int) =~= p@);
                assert(v@.skip(start as int).take(plen as int) =~= v@.subrange(start as int, start + plen));
                if k < plen {
                    assert(v@.subrange(start as int, start + plen)[k as int] != p@[k as int]);
                }
            }
            if k < plen {
                break;
            }
            proof {
                assert(v@.skip(start as int).skip(plen as int) =~= v@.skip(start + plen));
            }
            start = start + plen;
        }
    }
    let mut out = String::new();
    let mut i: usize = start;
    while i < v.len()
        invariant
            v@ == s@,
            start <= i <= v@.len(),
            out@ == v@.subrange(start as int, i as int),
        decreases v@.len() - i,
    {
        push_char(&mut out, v[i]);
        proof {
            assert(out@ =~= v@.subrange(start as int, i + 1));
        }
        i = i + 1;
    }
    proof {
        assert(out@ =~= v@.skip(start as int));
        if plen == 0 {
            assert(trim_prefix_copies(s@, prefix@) == s@);
        }
    }
    out
}

/// The texts of a sequence of strings.
pub open spec fn texts(v: Seq<String>) -> Seq<Seq<char>> {
    v.map_values(|s: String| s@)
}

fn contains_name(names: &Vec<String>, p: &str) -> (res: bool)
    ensures
        res == texts(names@).contains(p@),
{
    let mut i: usize = 0;
    while i < names.len()
        invariant
            i <= names@.len(),
            forall|k: int| 0 <= k < i ==> names@[k]@ != p@,
        decreases names@.len() - i,
    {
        if str_eq(names[i].as_str(), p) {
            proof {
                assert(texts(names@)[i as int] == p@);
            }
            return true;
        }
        i = i + 1;
    }
    proof {
        if texts(names@).contains(p@) {
            let k = choose|k: int| 0 <= k < names@.len() && #[trigger] texts(names@)[k] == p@;
            assert(names@[k]@ == p@);
        }
    }
    false
}

/// Parameters of `all` that are not locked yet, in order.
pub fn remaining_params(all: &Vec<&'static str>, locked: &Vec<String>) -> (res: Vec<&'static str>)
    ensures
        res@.map_values(|p: &'static str| p@) == all@.map_values(|p: &'static str| p@).filter(
            |p: Seq<char>| !texts(locked@).contains(p),
        ),
{
    let ghost names = all@.map_values(|p: &'static str| p@);
    let ghost pred = |p: Seq<char>| !texts(locked@).contains(p);
    let mut out: Vec<&'static str> = Vec::new();
    let mut i: usize = 0;
    while i < all.len()
        invariant
            i <= all@.len(),
            names == all@.map_values(|p: &'static str| p@),
            pred == (|p: Seq<char>| !texts(locked@).contains(p)),
            out@.map_values(|p: &'static str| p@) == names.take(i as int).filter(pred),
        decreases all@.len() - i,
    {
        let p = all[i];
        let is_locked = contains_name(locked, p);
        let ghost prev = out@;
        proof {
            reveal(Seq::filter);
            assert(names.take(i + 1).drop_last() =~= names.take(i as int));
            assert(names.take(i + 1).last() == p@);
        }
        if !is_locked {
            out.push(p);
            proof {
                assert(out@.map_values(|q: &'static str| q@) =~= prev.map_values(|q: &'static str| q@).push(p@));
            }
        }
        i = i + 1;
    }
    proof {
        assert(names.take(all@.len() as int) =~= names);
    }
    out
}

/// Bit `i` of `mask` is set.
pub open spec fn bit_set(mask: usize, i: nat) -> bool {
    (mask as nat / vstd::arithmetic::power2::pow2(i)) % 2 == 1
}

/// The items whose position has its bit set in `mask`, in order.
pub open spec fn masked(items: Seq<Seq<char>>, mask: usize) -> Seq<Seq<char>>
    decreases items.len(),
{
    if items.len() == 0 {
        items
    } else {
        let rest = masked(items.drop_last(), mask);
        if bit_set(mask, (items.len() - 1) as nat) { rest.push(items.last()) } else { rest }
    }
}

proof fn lemma_bit_test(mask: usize, i: usize)
    requires
        i < usize::BITS,
    ensures
        ((mask >> i) & 1usize == 1usize) == bit_set(mask, i as nat),
{
    vstd::bits::lemma_usize_shr_is_div(mask, i);
    vstd::arithmetic::power2::lemma_pow2_pos(i as nat);
    let q = mask >> i;
    assert(q & 1usize == q % 2) by (bit_vector);
}

/// The items whose position `i` has bit `i` of `mask` set, in order.
pub fn mask_selection(items: &Vec<String>, mask: usize) -> (res: Vec<String>)
    requires
        items@.len() <= usize::BITS,
    ensures
        texts(res@) == masked(texts(items@), mask),
{
    let mut out: Vec<String> = Vec::new();
    let mut i: usize = 0;
    while i < items.len()
        invariant
            i <= items@.len(),
            items@.len() <= usize::BITS,
            texts(out@) == masked(texts(items@).take(i as int), mask),
        decreases items@.len() - i,
    {
        proof {
            lemma_bit_test(mask, i);
            assert(texts(items@).take(i + 1).drop_last() =~= texts(items@).take(i as int));
        }
        let ghost prev = out@;
        if (mask >> i) & 1 == 1 {
            out.push(items[i].clone());
            proof {
                assert(texts(out@) =~= texts(prev).push(items@[i as int]@));
            }
        }
        i = i + 1;
    }
    proof {
        assert(texts(items@).take(items@.len() as int) =~= texts(items@));
    }
    out
}

/// The parts joined with `sep` between neighbours.
pub open spec fn joined(parts: Seq<Seq<char>>, sep: Seq<char>) -> Seq<char>
    decreases parts.len(),
{
    if parts.len() == 0 {
        Seq::empty()
    } else if parts.len() == 1 {
        parts[0]
    } else {
        joined(parts.drop_last(), sep) + sep + parts.last()
    }
}

/// Joins the parts with `sep` between neighbours.
pub fn join_with(parts: &Vec<String>, sep: &str) -> (res: String)
    ensures
        res@ == joined(texts(parts@), sep@),
{
    let mut out = String::new();
    let mut i: usize = 0;
    while i < parts.len()
        invariant
            i <= parts@.len(),
            out@ == joined(texts(parts@).take(i as int), sep@),
        decreases parts@.len() - i,
    {
        proof {
            assert(texts(parts@).take(i + 1).drop_last() =~= texts(parts@).take(i as int));
        }
        if i > 0 {
            push_str(&mut out, sep);
        }
        push_str(&mut out, parts[i].as_str());
        proof {
            if i == 0 {
                assert(out@ =~= parts@[0]@);
            }
        }
        i = i + 1;
    }
    proof {
        assert(texts(parts@).take(parts@.len() as int) =~= texts(parts@));
    }
    out
}

/// Label of a parameter combination: the active parameters joined with '+', or `none`
/// when no parameter is active.
pub fn combo_label(active: &Vec<String>, none: &str) -> (res: String)
    ensures
        active@.len() == 0 ==> res@ == none@,
        active@.len() > 0 ==> res@ == joined(texts(active@), "+"@),
{
    if active.len() == 0 {
        let mut out = String::new();
        push_str(&mut out, none);
        proof {
            assert(out@ =~= none@);
        }
        out
    } else {
        join_with(active, "+")
    }
}

/// Binary digits of `n`, most significant first (the digits of 0 are "0").
pub open spec fn binary(n: nat) -> Seq<char>
    decreases n,
{
    if n < 2 {
        seq![if n == 0 { '0' } else { '1' }]
    } else {
        binary(n / 2).push(if n % 2 == 0 { '0' } else { '1' })
    }
}

/// Binary digits of `n`, left-padded with '0' to at least `width` characters.
pub open spec fn padded_binary(n: nat, width: nat) -> Seq<char> {
    let d = binary(n);
    if d.len() >= width { d } else { Seq::new((width - d.len()) as nat, |i: int| '0') + d }
}

/// The mask of a combination run in binary, zero-padded to one digit per parameter.
pub fn mask_binary(mask: usize, width: usize) -> (res: String)
    ensures
        res@ == padded_binary(mask as nat, width as nat),
{
    let mut bits: Vec<char> = Vec::new();
    let mut m: usize = mask;
    while m >= 2
        invariant
            binary(mask as nat) == binary(m as nat) + bits@.reverse(),
        decreases m,
    {
        let c: char = if m % 2 == 0 { '0' } else { '1' };
        proof {
            assert(bits@.push(c).reverse() =~= seq![c] + bits@.reverse());
        }
        bits.push(c);
        m = m / 2;
    }
    let c0: char = if m == 0 { '0' } else { '1' };
    let mut digits: Vec<char> = Vec::new();
    digits.push(c0);
    let mut k: usize = bits.len();
    while k > 0
        invariant
            k <= bits@.len(),
            digits@ + bits@.take(k as int).reverse() == binary(mask as nat),
        decreases k,
    {
        k = k - 1;
        proof {
            assert(bits@.take(k + 1).reverse() =~= seq![bits@[k as int]] + bits@.take(k as int).reverse());
        }
        digits.push(bits[k]);
        proof {
            assert(digits@ + bits@.take(k as int).reverse() =~= binary(mask as nat));
        }
    }
    proof {
        assert(bits@.take(bits@.len() as int) =~= bits@);
        assert(digits@ =~= binary(mask as nat));
    }
    let len = digits.len();
    let mut out = String::new();
    let mut pad: usize = len;
    while pad < width
        invariant
            len == digits@.len(),
            len <= pad,
            pad <= width || pad == len,
            out@ == Seq::new((pad - len) as nat, |i: int| '0'),
        decreases width - pad,
    {
        push_char(&mut out, '0');
        proof {
            assert(out@ =~= Seq::new((pad + 1 - len) as nat, |i: int| '0'));
        }
        pad = pad + 1;
    }
    let ghost pre = out@;
    let mut i: usize = 0;
    while i < len
        invariant
            len == digits@.len(),
            i <= len,
            out@ == pre + digits@.take(i as int),
        decreases len - i,
    {
        push_char(&mut out, digits[i]);
        proof {
            assert(out@ =~= pre + digits@.take(i + 1));
        }
        i = i + 1;
    }
    proof {
        assert(digits@.take(len as int) =~= digits@);
        if len >= width {
            assert(pre =~= Seq::<char>::empty());
        }
        assert(out@ =~= padded_binary(mask as nat, width as nat));
    }
    out
}

} // verus!
