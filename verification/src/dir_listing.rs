//! The directory listing the agent's `list_dir` tool gives: directories
//! first, then files, each group in the order of `str`'s `Ord`.
use vstd::prelude::*;
use crate::hashing::bytes_of;
use crate::order::{asymmetric, lemma_sorted_unique, sorted_by};
use crate::text::{append, chars_of, string_of};

verus! {

/// Lexicographic order of byte strings: `str`'s `Ord` compares the UTF-8
/// bytes this way.
pub open spec fn bytes_lt(a: Seq<u8>, b: Seq<u8>) -> bool
    decreases a.len(),
{
    if b.len() == 0 {
        false
    } else if a.len() == 0 {
        true
    } else if a[0] != b[0] {
        a[0] < b[0]
    } else {
        bytes_lt(a.drop_first(), b.drop_first())
    }
}

pub proof fn lemma_bytes_lt_asym(a: Seq<u8>, b: Seq<u8>)
    ensures
        bytes_lt(a, b) ==> !bytes_lt(b, a),
        !bytes_lt(a, a),
    decreases a.len(),
{
    if a.len() > 0 && b.len() > 0 {
        lemma_bytes_lt_asym(a.drop_first(), b.drop_first());
    }
    if a.len() > 0 {
        lemma_bytes_lt_asym(a.drop_first(), a.drop_first());
    }
}

pub proof fn lemma_bytes_lt_total(a: Seq<u8>, b: Seq<u8>)
    ensures
        bytes_lt(a, b) || bytes_lt(b, a) || a == b,
    decreases a.len(),
{
    if a.len() > 0 && b.len() > 0 {
        lemma_bytes_lt_total(a.drop_first(), b.drop_first());
        if a[0] == b[0] && a.drop_first() == b.drop_first() {
            assert(a =~= seq![a[0]] + a.drop_first());
            assert(b =~= seq![b[0]] + b.drop_first());
        }
    } else if a.len() == 0 && b.len() == 0 {
        assert(a =~= b);
    }
}

pub proof fn lemma_bytes_lt_trans(a: Seq<u8>, b: Seq<u8>, c: Seq<u8>)
    requires
        bytes_lt(a, b),
        bytes_lt(b, c),
    ensures
        bytes_lt(a, c),
    decreases a.len(),
{
    if a.len() > 0 && b.len() > 0 && c.len() > 0 && a[0] == b[0] && b[0] == c[0] {
        lemma_bytes_lt_trans(a.drop_first(), b.drop_first(), c.drop_first());
    }
}

fn bytes_less(a: &[u8], b: &[u8]) -> (r: bool)
    ensures
        r == bytes_lt(a@, b@),
{
    let mut i: usize = 0;
    assert(a@.skip(0) =~= a@);
    assert(b@.skip(0) =~= b@);
    while i < a.len() && i < b.len() && a[i] == b[i]
        invariant
            0 <= i <= a.len(),
            i <= b.len(),
            a@.take(i as int) == b@.take(i as int),
            bytes_lt(a@, b@) == bytes_lt(a@.skip(i as int), b@.skip(i as int)),
        decreases a.len() - i,
    {
        assert(a@.skip(i as int).drop_first() =~= a@.skip(i + 1));
        assert(b@.skip(i as int).drop_first() =~= b@.skip(i + 1));
        assert(a@.take(i + 1) =~= a@.take(i as int).push(a@[i as int]));
        assert(b@.take(i + 1) =~= b@.take(i as int).push(b@[i as int]));
        i = i + 1;
    }
    if i < b.len() && i < a.len() {
        a[i] < b[i]
    } else {
        i < b.len()
    }
}

/// Whether name `i` sorts before name `j`: a smaller name, or the same name
/// at an earlier place.
pub open spec fn name_before(ns: Seq<Seq<u8>>, i: int, j: int) -> bool {
    bytes_lt(ns[i], ns[j]) || (ns[i] == ns[j] && i < j)
}

/// `o` holds each place of `ns` once, in the names' order.
pub open spec fn is_name_order(ns: Seq<Seq<u8>>, o: Seq<int>) -> bool {
    &&& forall|k: int| 0 <= k < o.len() ==> 0 <= #[trigger] o[k] < ns.len()
    &&& forall|i: int| 0 <= i < ns.len() ==> #[trigger] o.contains(i)
    &&& sorted_by(|i: int, j: int| name_before(ns, i, j), o)
}

/// The UTF-8 bytes of each name.
pub open spec fn name_bytes(ns: Seq<Seq<char>>) -> Seq<Seq<u8>> {
    ns.map_values(|n: Seq<char>| vstd::utf8::encode_utf8(n))
}

/// The names in `str`'s order.
pub open spec fn sorted_names(ns: Seq<Seq<char>>) -> Seq<Seq<char>> {
    let o = choose|o: Seq<int>| is_name_order(name_bytes(ns), o);
    o.map_values(|i: int| ns[i])
}

pub proof fn lemma_name_order_unique(ns: Seq<Seq<u8>>, o1: Seq<int>, o2: Seq<int>)
    requires
        is_name_order(ns, o1),
        is_name_order(ns, o2),
    ensures
        o1 == o2,
{
    let before = |i: int, j: int| name_before(ns, i, j);
    assert forall|x: int, y: int| #[trigger] before(x, y) implies !before(y, x) by {
        lemma_bytes_lt_asym(ns[x], ns[y]);
    }
    assert(asymmetric(before));
    assert forall|x: int| o1.contains(x) <==> o2.contains(x) by {
        if o1.contains(x) {
            let k = choose|k: int| 0 <= k < o1.len() && o1[k] == x;
            assert(0 <= o1[k] < ns.len());
        }
        if o2.contains(x) {
            let k = choose|k: int| 0 <= k < o2.len() && o2[k] == x;
            assert(0 <= o2[k] < ns.len());
        }
    }
    lemma_sorted_unique(before, o1, o2);
}

pub open spec fn byte_views(v: Seq<Vec<u8>>) -> Seq<Seq<u8>> {
    v.map_values(|b: Vec<u8>| b@)
}

pub open spec fn place_views(v: Seq<usize>) -> Seq<int> {
    v.map_values(|x: usize| x as int)
}

/// Orders places by their names, inserting each after the names not
/// greater than it.
fn name_order(ns: &Vec<Vec<u8>>) -> (o: Vec<usize>)
    ensures
        is_name_order(byte_views(ns@), place_views(o@)),
{
    let ghost nv = byte_views(ns@);
    let mut o: Vec<usize> = Vec::new();
    let mut i: usize = 0;
    while i < ns.len()
        invariant
            0 <= i <= ns.len(),
            nv == byte_views(ns@),
            nv.len() == ns.len(),
            forall|k: int| 0 <= k < o.len() ==> 0 <= #[trigger] o[k] < i,
            forall|j: int| 0 <= j < i ==> #[trigger] place_views(o@).contains(j),
            forall|a: int, b: int| 0 <= a < b < o.len() ==> name_before(nv, #[trigger] o[a] as int, #[trigger] o[b] as int),
        decreases ns.len() - i,
    {
        let mut p: usize = 0;
        while p < o.len() && !bytes_less(ns[i].as_slice(), ns[o[p]].as_slice())
            invariant
                0 <= p <= o.len(),
                i < ns.len(),
                nv == byte_views(ns@),
                nv.len() == ns.len(),
                forall|k: int| 0 <= k < o.len() ==> 0 <= #[trigger] o[k] < i,
                forall|k: int| 0 <= k < p ==> !bytes_lt(nv[i as int], nv[#[trigger] o[k] as int]),
            decreases o.len() - p,
        {
            assert(nv[i as int] == ns[i as int]@ && nv[o[p as int] as int] == ns[o[p as int] as int]@);
            p = p + 1;
        }
        if p < o.len() {
            assert(nv[i as int] == ns[i as int]@ && nv[o[p as int] as int] == ns[o[p as int] as int]@);
            assert(bytes_lt(nv[i as int], nv[o[p as int] as int]));
        }
        let ghost old_o = o@;
        o.insert(p, i);
        assert(o@ =~= old_o.take(p as int).push(i).add(old_o.skip(p as int)));
        assert forall|k: int| 0 <= k < o.len() implies 0 <= #[trigger] o[k] < i + 1 by {
            if k < p {
                assert(o[k] == old_o[k]);
            } else if k > p {
                assert(o[k] == old_o[k - 1]);
            }
        }
        assert forall|a: int, b: int| 0 <= a < b < o.len() implies name_before(nv, #[trigger] o[a] as int, #[trigger] o[b] as int) by {
            if b < p {
                assert(o[a] == old_o[a] && o[b] == old_o[b]);
            } else if b == p {
                assert(o[a] == old_o[a]);
                lemma_bytes_lt_total(nv[i as int], nv[o[a] as int]);
            } else if a == p {
                assert(o[b] == old_o[b - 1]);
                if b - 1 > p {
                    assert(name_before(nv, old_o[p as int] as int, old_o[b - 1] as int));
                    if bytes_lt(nv[old_o[p as int] as int], nv[old_o[b - 1] as int]) {
                        lemma_bytes_lt_trans(nv[i as int], nv[old_o[p as int] as int], nv[old_o[b - 1] as int]);
                    }
                }
            } else if a < p {
                assert(o[a] == old_o[a] && o[b] == old_o[b - 1]);
            } else {
                assert(o[a] == old_o[a - 1] && o[b] == old_o[b - 1]);
            }
        }
        assert forall|j: int| 0 <= j < i + 1 implies #[trigger] place_views(o@).contains(j) by {
            if j == i {
                assert(place_views(o@)[p as int] == j);
            } else {
                assert(place_views(old_o).contains(j));
                let t = choose|t: int| 0 <= t < old_o.len() && place_views(old_o)[t] == j;
                if t < p {
                    assert(place_views(o@)[t] == j);
                } else {
                    assert(place_views(o@)[t + 1] == j);
                }
            }
        }
        i = i + 1;
    }
    proof {
        let ov = place_views(o@);
        assert forall|k: int| 0 <= k < ov.len() implies 0 <= #[trigger] ov[k] < nv.len() by {
            assert(ov[k] == o[k] as int);
        }
        assert forall|a: int, b: int| 0 <= a < b < ov.len() implies (|i: int, j: int| name_before(nv, i, j))(#[trigger] ov[a], #[trigger] ov[b]) by {
            assert(ov[a] == o[a] as int && ov[b] == o[b] as int);
        }
    }
    o
}

/// Sorts names as `str`'s `Ord` does.
pub fn sort_names(names: &Vec<String>) -> (r: Vec<String>)
    ensures
        r@.map_values(|s: String| s@) == sorted_names(names@.map_values(|s: String| s@)),
{
    let ghost nv = names@.map_values(|s: String| s@);
    let mut bs: Vec<Vec<u8>> = Vec::new();
    let mut i: usize = 0;
    while i < names.len()
        invariant
            0 <= i <= names.len(),
            nv == names@.map_values(|s: String| s@),
            bs@.len() == i,
            name_bytes(nv).len() == names.len(),
            byte_views(bs@) =~= name_bytes(nv).take(i as int),
        decreases names.len() - i,
    {
        let b = bytes_of(names[i].as_str());
        assert(nv[i as int] == names[i as int]@);
        assert(b@ == vstd::utf8::encode_utf8(nv[i as int]));
        let ghost before = bs@;
        bs.push(b);
        assert(byte_views(bs@)[i as int] == name_bytes(nv)[i as int]);
        assert forall|t: int| 0 <= t < i implies byte_views(bs@)[t] == name_bytes(nv)[t] by {
            assert(bs@[t] == before[t]);
            assert(byte_views(before)[t] == name_bytes(nv).take(i as int)[t]);
        }
        assert(byte_views(bs@) =~= name_bytes(nv).take(i + 1));
        i = i + 1;
    }
    assert(name_bytes(nv).take(names.len() as int) =~= name_bytes(nv));
    let o = name_order(&bs);
    proof {
        let c = choose|c: Seq<int>| is_name_order(name_bytes(nv), c);
        lemma_name_order_unique(name_bytes(nv), c, place_views(o@));
    }
    let mut r: Vec<String> = Vec::new();
    let mut k: usize = 0;
    while k < o.len()
        invariant
            0 <= k <= o.len(),
            nv == names@.map_values(|s: String| s@),
            is_name_order(name_bytes(nv), place_views(o@)),
            name_bytes(nv).len() == names.len(),
            r@.len() == k,
            r@.map_values(|s: String| s@) =~= place_views(o@).take(k as int).map_values(|j: int| nv[j]),
        decreases o.len() - k,
    {
        let j = o[k];
        assert(place_views(o@)[k as int] == j as int);
        let s = string_of(chars_of(names[j].as_str()).as_slice());
        assert(0 <= j < names.len());
        assert(s@ == nv[j as int]);
        let ghost before = r@;
        r.push(s);
        assert forall|t: int| 0 <= t < k implies r@[t]@ == place_views(o@).take(k as int).map_values(|j: int| nv[j])[t] by {
            assert(r@[t] == before[t]);
            assert(before.map_values(|s: String| s@)[t] == before[t]@);
        }
        assert(r@.map_values(|s: String| s@) =~= place_views(o@).take(k + 1).map_values(|j: int| nv[j]));
        k = k + 1;
    }
    assert(place_views(o@).take(o.len() as int) =~= place_views(o@));
    r
}

/// One line per name, indented by two spaces.
pub open spec fn listing_lines(ns: Seq<Seq<char>>) -> Seq<char>
    decreases ns.len(),
{
    if ns.len() == 0 {
        seq![]
    } else {
        listing_lines(ns.drop_last()) + "  "@ + ns.last() + "\n"@
    }
}

/// The listing of a directory: its directories, each with a slash, then its
/// files, both in `str`'s order.
pub open spec fn dir_listing_spec(path: Seq<char>, dirs: Seq<Seq<char>>, files: Seq<Seq<char>>) -> Seq<char> {
    "Contents of "@ + path + ":\n"@ + listing_lines(sorted_names(dirs.map_values(|d: Seq<char>| d + "/"@)))
        + listing_lines(sorted_names(files))
}

fn push_lines(out: &mut Vec<char>, ns: &Vec<String>)
    ensures
        final(out)@ == old(out)@ + listing_lines(ns@.map_values(|s: String| s@)),
{
    let ghost nv = ns@.map_values(|s: String| s@);
    let ghost base = out@;
    let mut i: usize = 0;
    while i < ns.len()
        invariant
            0 <= i <= ns.len(),
            nv == ns@.map_values(|s: String| s@),
            out@ == base + listing_lines(nv.take(i as int)),
        decreases ns.len() - i,
    {
        append(out, chars_of("  ").as_slice());
        append(out, chars_of(ns[i].as_str()).as_slice());
        append(out, chars_of("\n").as_slice());
        assert(nv.take(i + 1).drop_last() =~= nv.take(i as int));
        assert(out@ =~= base + listing_lines(nv.take(i + 1)));
        i = i + 1;
    }
    assert(nv.take(ns.len() as int) =~= nv);
}

/// Lists a directory from the names of its subdirectories and files.
pub fn dir_listing(path: &str, dirs: &Vec<String>, files: &Vec<String>) -> (r: String)
    ensures
        r@ == dir_listing_spec(path@, dirs@.map_values(|s: String| s@), files@.map_values(|s: String| s@)),
{
    let mut slashed: Vec<String> = Vec::new();
    let mut i: usize = 0;
    while i < dirs.len()
        invariant
            0 <= i <= dirs.len(),
            slashed@.len() == i,
            slashed@.map_values(|s: String| s@) =~= dirs@.map_values(|s: String| s@).map_values(
                |d: Seq<char>| d + "/"@,
            ).take(i as int),
        decreases dirs.len() - i,
    {
        let mut v = chars_of(dirs[i].as_str());
        append(&mut v, chars_of("/").as_slice());
        let ghost before = slashed@;
        let t = string_of(v.as_slice());
        assert(t@ == dirs[i as int]@ + "/"@);
        slashed.push(t);
        assert forall|u: int| 0 <= u < i implies slashed@[u]@ == dirs@.map_values(|s: String| s@).map_values(
            |d: Seq<char>| d + "/"@,
        ).take(i as int)[u] by {
            assert(slashed@[u] == before[u]);
            assert(before.map_values(|s: String| s@)[u] == before[u]@);
        }
        assert(slashed@.map_values(|s: String| s@) =~= dirs@.map_values(|s: String| s@).map_values(
            |d: Seq<char>| d + "/"@,
        ).take(i + 1));
        i = i + 1;
    }
    assert(dirs@.map_values(|s: String| s@).map_values(|d: Seq<char>| d + "/"@).take(dirs.len() as int)
        =~= dirs@.map_values(|s: String| s@).map_values(|d: Seq<char>| d + "/"@));
    let sd = sort_names(&slashed);
    let sf = sort_names(files);
    let mut out = chars_of("Contents of ");
    append(&mut out, chars_of(path).as_slice());
    append(&mut out, chars_of(":\n").as_slice());
    push_lines(&mut out, &sd);
    push_lines(&mut out, &sf);
    string_of(out.as_slice())
}

} // verus!
