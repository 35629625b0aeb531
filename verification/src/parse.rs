//! Parsing of dotted version strings.
//!
//! A version string such as `"3.14.0"` is split on `'.'`; every piece that
//! is a run of ASCII digits whose value fits in a `u32` contributes one
//! numeric component, in order, and every other piece is dropped.

use vstd::prelude::*;

verus! {

/// An ASCII decimal digit.
pub open spec fn is_digit(c: char) -> bool {
    48 <= c as u32 && c as u32 <= 57
}

/// The value of one digit; zero for anything that is not a digit.
pub open spec fn digit_val(c: char) -> nat {
    if is_digit(c) {
        (c as u32 - 48) as nat
    } else {
        0
    }
}

/// The value of a digit string read left to right in base ten.
pub open spec fn seg_val(s: Seq<char>) -> nat
    decreases s.len(),
{
    if s.len() == 0 {
        0
    } else {
        seg_val(s.drop_last()) * 10 + digit_val(s.last())
    }
}

/// A piece that parses as a `u32`: non-empty, all digits, value in range.
pub open spec fn is_numeric_seg(s: Seq<char>) -> bool {
    &&& s.len() > 0
    &&& forall|i: int| 0 <= i < s.len() ==> is_digit(s[i])
    &&& seg_val(s) <= u32::MAX
}

/// The pieces of `s` between occurrences of `'.'`, in order. The empty
/// string yields one empty piece, as splitting does.
pub open spec fn split_on_dot(s: Seq<char>) -> Seq<Seq<char>>
    decreases s.len(),
{
    if s.len() == 0 {
        seq![Seq::<char>::empty()]
    } else if s[0] == '.' {
        seq![Seq::<char>::empty()] + split_on_dot(s.skip(1))
    } else {
        let rest = split_on_dot(s.skip(1));
        seq![seq![s[0]] + rest[0]] + rest.skip(1)
    }
}

/// The numeric components of a version string: split on `'.'`, keep the
/// pieces that parse, take their values in order.
pub open spec fn numeric_parts(s: Seq<char>) -> Seq<nat> {
    split_on_dot(s).filter(|p: Seq<char>| is_numeric_seg(p)).map_values(|p: Seq<char>| seg_val(p))
}

/// The parsed components as mathematical values.
pub open spec fn vals_of(parts: Seq<u32>) -> Seq<nat> {
    parts.map_values(|x: u32| x as nat)
}

/// The contribution of one piece to the numeric components.
spec fn piece_parts(p: Seq<char>) -> Seq<nat> {
    if is_numeric_seg(p) {
        seq![seg_val(p)]
    } else {
        Seq::<nat>::empty()
    }
}

/// Splitting never yields an empty list of pieces.
proof fn lemma_split_len(s: Seq<char>)
    ensures
        split_on_dot(s).len() >= 1,
    decreases s.len(),
{
    if s.len() != 0 {
        lemma_split_len(s.skip(1));
    }
}

/// Splitting, unrolled at the first dot: everything before it is the first
/// piece, and the rest of the string splits on its own.
proof fn lemma_split_at_first_dot(s: Seq<char>, i: int)
    requires
        0 <= i <= s.len(),
        forall|k: int| 0 <= k < i ==> s[k] != '.',
        i < s.len() ==> s[i] == '.',
    ensures
        i == s.len() ==> split_on_dot(s) == seq![s],
        i < s.len() ==> split_on_dot(s) == seq![s.take(i)] + split_on_dot(s.skip(i + 1)),
    decreases i,
{
    if i == 0 {
        if s.len() == 0 {
            assert(s =~= Seq::<char>::empty());
            assert(split_on_dot(s) =~~= seq![s]);
        } else {
            assert(s.take(0) =~= Seq::<char>::empty());
            assert(split_on_dot(s) =~= seq![s.take(0)] + split_on_dot(s.skip(1)));
        }
    } else {
        let t = s.skip(1);
        assert(forall|k: int| 0 <= k < i - 1 ==> t[k] != '.');
        lemma_split_at_first_dot(t, i - 1);
        let rest = split_on_dot(t);
        lemma_split_len(t);
        if i == s.len() {
            assert(rest == seq![t]);
            assert(seq![s[0]] + t =~= s);
            assert(rest.skip(1) =~= Seq::<Seq<char>>::empty());
            assert(split_on_dot(s) =~~= seq![s]);
        } else {
            assert(rest == seq![t.take(i - 1)] + split_on_dot(t.skip(i)));
            assert(rest[0] == t.take(i - 1));
            assert(seq![s[0]] + t.take(i - 1) =~= s.take(i));
            assert(rest.skip(1) =~= split_on_dot(t.skip(i)));
            assert(t.skip(i) =~= s.skip(i + 1));
            assert(split_on_dot(s) =~~= seq![s.take(i)] + split_on_dot(s.skip(i + 1)));
        }
    }
}

/// Mapping a sequence distributes over concatenation.
proof fn lemma_map_values_distributes<A, B>(a: Seq<A>, b: Seq<A>, f: spec_fn(A) -> B)
    ensures
        (a + b).map_values(f) == a.map_values(f) + b.map_values(f),
{
    assert((a + b).map_values(f) =~= a.map_values(f) + b.map_values(f));
}

/// Filtering a one-piece list keeps or drops that piece.
proof fn lemma_filter_singleton(p: Seq<char>)
    ensures
        seq![p].filter(|q: Seq<char>| is_numeric_seg(q)) == (if is_numeric_seg(p) {
            seq![p]
        } else {
            Seq::<Seq<char>>::empty()
        }),
{
    reveal_with_fuel(Seq::<_>::filter, 2);
    assert(seq![p].drop_last() =~= Seq::<Seq<char>>::empty());
    if is_numeric_seg(p) {
        assert(seq![p].filter(|q: Seq<char>| is_numeric_seg(q)) =~= seq![p]);
    } else {
        assert(seq![p].filter(|q: Seq<char>| is_numeric_seg(q)) =~= Seq::<Seq<char>>::empty());
    }
}

/// The numeric components, unrolled at the first dot.
proof fn lemma_numeric_parts_decompose(s: Seq<char>, i: int)
    requires
        0 <= i <= s.len(),
        forall|k: int| 0 <= k < i ==> s[k] != '.',
        i < s.len() ==> s[i] == '.',
    ensures
        i == s.len() ==> numeric_parts(s) == piece_parts(s),
        i < s.len() ==> numeric_parts(s) == piece_parts(s.take(i)) + numeric_parts(s.skip(i + 1)),
{
    lemma_split_at_first_dot(s, i);
    let pred = |q: Seq<char>| is_numeric_seg(q);
    let f = |q: Seq<char>| seg_val(q);
    if i == s.len() {
        lemma_filter_singleton(s);
        if is_numeric_seg(s) {
            assert(seq![s].map_values(f) =~= seq![seg_val(s)]);
        } else {
            assert(Seq::<Seq<char>>::empty().map_values(f) =~= Seq::<nat>::empty());
        }
    } else {
        let p = s.take(i);
        let rest = split_on_dot(s.skip(i + 1));
        Seq::<Seq<char>>::filter_distributes_over_add(seq![p], rest, pred);
        lemma_filter_singleton(p);
        lemma_map_values_distributes(seq![p].filter(pred), rest.filter(pred), f);
        if is_numeric_seg(p) {
            assert(seq![p].map_values(f) =~= seq![seg_val(p)]);
        } else {
            assert(Seq::<Seq<char>>::empty().map_values(f) =~= Seq::<nat>::empty());
        }
    }
}

/// A version string whose first two dot-separated pieces are numeric has
/// exactly those pieces' values as its leading components, whatever
/// trailing content follows them.
pub proof fn lemma_leading_pieces_give_components(s: Seq<char>)
    requires
        split_on_dot(s).len() >= 2,
        is_numeric_seg(split_on_dot(s)[0]),
        is_numeric_seg(split_on_dot(s)[1]),
    ensures
        numeric_parts(s).len() >= 2,
        numeric_parts(s)[0] == seg_val(split_on_dot(s)[0]),
        numeric_parts(s)[1] == seg_val(split_on_dot(s)[1]),
{
    let sp = split_on_dot(s);
    let pred = |q: Seq<char>| is_numeric_seg(q);
    let f = |q: Seq<char>| seg_val(q);
    let head = seq![sp[0], sp[1]];
    assert(sp =~= head + sp.skip(2));
    Seq::<Seq<char>>::filter_distributes_over_add(head, sp.skip(2), pred);
    reveal_with_fuel(Seq::<_>::filter, 3);
    assert(head.drop_last() =~= seq![sp[0]]);
    assert(seq![sp[0]].drop_last() =~= Seq::<Seq<char>>::empty());
    assert(head.filter(pred) =~= head);
    lemma_map_values_distributes(head.filter(pred), sp.skip(2).filter(pred), f);
    assert(head.map_values(f) =~= seq![seg_val(sp[0]), seg_val(sp[1])]);
}

/// An empty version string has no numeric components at all.
pub proof fn lemma_empty_has_no_parts(s: Seq<char>)
    requires
        s.len() == 0,
    ensures
        numeric_parts(s).len() == 0,
{
    lemma_numeric_parts_decompose(s, 0);
}

/// Finds the first `'.'` at or after `from`, or the end of the string.
fn find_next_dot(s: &str, from: usize, len: usize) -> (j: usize)
    requires
        len == s@.len(),
        from <= len,
    ensures
        from <= j <= len,
        forall|k: int| from <= k < j ==> s@[k] != '.',
        j < len ==> s@[j as int] == '.',
{
    let mut j = from;
    while j < len
        invariant
            from <= j <= len,
            len == s@.len(),
            forall|k: int| from <= k < j ==> s@[k] != '.',
        decreases len - j,
    {
        if s.get_char(j) == '.' {
            return j;
        }
        j = j + 1;
    }
    j
}

/// Parses the piece `s[from..to]` as a `u32`: `Some` exactly when the piece
/// is non-empty, all digits, and its value fits.
fn parse_segment(s: &str, from: usize, to: usize) -> (r: Option<u32>)
    requires
        from <= to <= s@.len(),
    ensures
        ({
            let seg = s@.subrange(from as int, to as int);
            match r {
                Some(v) => is_numeric_seg(seg) && v as nat == seg_val(seg),
                None => !is_numeric_seg(seg),
            }
        }),
{
    let ghost seg = s@.subrange(from as int, to as int);
    let mut k = from;
    let mut val: u64 = 0;
    let mut all_digits = true;
    let mut overflow = false;
    while k < to
        invariant
            from <= k <= to <= s@.len(),
            val <= u32::MAX,
            seg == s@.subrange(from as int, to as int),
            all_digits <==> (forall|i: int| from <= i < k ==> is_digit(s@[i])),
            (all_digits && !overflow) ==> val as nat == seg_val(s@.subrange(from as int, k as int)),
            (all_digits && overflow) ==> seg_val(s@.subrange(from as int, k as int)) > u32::MAX,
        decreases to - k,
    {
        let ghost pre = s@.subrange(from as int, k as int);
        let c = s.get_char(k);
        let d = c as u32;
        proof {
            assert(s@.subrange(from as int, k as int + 1) =~= pre.push(s@[k as int]));
            assert(pre.push(s@[k as int]).drop_last() =~= pre);
        }
        if 48 <= d && d <= 57 {
            if !overflow {
                let next: u64 = val * 10 + ((d - 48) as u64);
                if next > 0xFFFF_FFFF {
                    overflow = true;
                    proof {
                        assert(seg_val(s@.subrange(from as int, k as int + 1)) == seg_val(pre)
                            * 10 + digit_val(s@[k as int]));
                    }
                } else {
                    val = next;
                }
            } else {
                proof {
                    if all_digits {
                        assert(seg_val(pre) * 10 >= seg_val(pre));
                    }
                }
            }
        } else {
            all_digits = false;
        }
        k = k + 1;
    }
    if from < to && all_digits && !overflow {
        proof {
            assert(seg =~= s@.subrange(from as int, to as int));
        }
        Some(val as u32)
    } else {
        proof {
            if from < to && !all_digits {
                let i = choose|i: int| from <= i < to && !is_digit(s@[i]);
                assert(seg[i - from] == s@[i]);
            }
        }
        None
    }
}

/// Parses every numeric dot-separated piece of `s`, in order, dropping the
/// pieces that are empty, non-numeric, or too large for a `u32`.
pub fn parse_numeric_parts(s: &str) -> (parts: Vec<u32>)
    ensures
        vals_of(parts@) == numeric_parts(s@),
{
    let len = s.unicode_len();
    let mut parts: Vec<u32> = Vec::new();
    let mut pos: usize = 0;
    let mut done = false;
    proof {
        assert(s@.skip(0) =~= s@);
        assert(vals_of(parts@) =~= Seq::<nat>::empty());
    }
    while !done
        invariant
            len == s@.len(),
            pos <= len,
            !done ==> numeric_parts(s@) == vals_of(parts@) + numeric_parts(s@.skip(pos as int)),
            done ==> numeric_parts(s@) == vals_of(parts@),
        decreases len - pos, (if done {
            0int
        } else {
            1int
        }),
    {
        let j = find_next_dot(s, pos, len);
        let ghost suffix = s@.skip(pos as int);
        let ghost seg = s@.subrange(pos as int, j as int);
        proof {
            assert(forall|k: int| 0 <= k < suffix.len() ==> suffix[k] == s@[pos + k]);
            lemma_numeric_parts_decompose(suffix, j - pos);
            assert(suffix.take(j - pos) =~= seg);
            if j < len {
                assert(suffix.skip(j - pos + 1) =~= s@.skip(j + 1));
            } else {
                assert(suffix =~= seg);
            }
        }
        let ghost before = parts@;
        match parse_segment(s, pos, j) {
            Some(v) => {
                parts.push(v);
                proof {
                    assert(vals_of(before.push(v)) =~= vals_of(before) + seq![v as nat]);
                    assert(piece_parts(seg) =~= seq![v as nat]);
                }
            },
            None => {
                proof {
                    assert(piece_parts(seg) =~= Seq::<nat>::empty());
                    assert(vals_of(before) + Seq::<nat>::empty() =~= vals_of(before));
                }
            },
        }
        if j < len {
            pos = j + 1;
        } else {
            done = true;
        }
    }
    parts
}

} // verus!
