use vstd::prelude::*;
use vstd::arithmetic::div_mod::{lemma_div_multiples_vanish, lemma_mod_multiples_basic};

verus! {

/// Denominator of the cursor step `(source_len - 1) / max(target_len - 1, 1)`.
pub open spec fn step_den(target_len: nat) -> nat {
    if target_len > 1 {
        (target_len - 1) as nat
    } else {
        1
    }
}

/// The cursor position of output index `i`, scaled by `step_den(target_len)`.
pub open spec fn scaled_position(source_len: nat, i: nat) -> nat {
    i * (source_len - 1) as nat
}

/// The source index at or just left of the cursor of output index `i`.
pub open spec fn left_index(source_len: nat, target_len: nat, i: nat) -> nat {
    scaled_position(source_len, i) / step_den(target_len)
}

/// The fractional part of the cursor of output index `i`, over `step_den(target_len)`.
pub open spec fn fract_num(source_len: nat, target_len: nat, i: nat) -> nat {
    scaled_position(source_len, i) % step_den(target_len)
}

/// `v` is the value that output index `i` takes: the source value itself where the
/// cursor falls on a source index, and otherwise what `blend` gives for the two
/// neighbouring source values and the fraction `num / den` between them.
pub open spec fn resampled_value<T, F: Fn(T, T, usize, usize) -> T>(
    source: Seq<T>,
    target_len: nat,
    i: nat,
    blend: F,
    v: T,
) -> bool {
    let left = left_index(source.len(), target_len, i);
    let num = fract_num(source.len(), target_len, i);
    if num == 0 {
        v == source[left as int]
    } else {
        call_ensures(
            blend,
            (source[left as int], source[left + 1 as int], num as usize, step_den(target_len) as usize),
            v,
        )
    }
}

/// `r` is `source` stretched or compressed to `target_len` values.
pub open spec fn is_resampling<T, F: Fn(T, T, usize, usize) -> T>(
    source: Seq<T>,
    target_len: nat,
    blend: F,
    r: Seq<T>,
) -> bool {
    &&& r.len() == target_len
    &&& forall|i: int|
        #![trigger r[i]]
        0 <= i < target_len ==> resampled_value(source, target_len, i as nat, blend, r[i])
}

/// A blend may be called on any two values with a fraction strictly between 0 and 1.
pub open spec fn blend_ready<T, F: Fn(T, T, usize, usize) -> T>(blend: F) -> bool {
    forall|a: T, b: T, num: usize, den: usize|
        0 < num < den ==> #[trigger] call_requires(blend, (a, b, num, den))
}

/// The cursor never leaves the source, and where it lies between two source
/// indices both exist.
proof fn lemma_cursor_in_source(source_len: nat, target_len: nat, i: nat)
    requires
        source_len > 0,
        target_len > 0,
        i < target_len,
    ensures
        left_index(source_len, target_len, i) < source_len,
        fract_num(source_len, target_len, i) < step_den(target_len),
        fract_num(source_len, target_len, i) != 0 ==> left_index(source_len, target_len, i) + 1
            < source_len,
{
    let d = step_den(target_len) as int;
    let s = scaled_position(source_len, i) as int;
    let l = left_index(source_len, target_len, i) as int;
    let f = fract_num(source_len, target_len, i) as int;
    let m = (source_len - 1) as int;
    assert(s == d * l + f && 0 <= f < d) by {
        vstd::arithmetic::div_mod::lemma_fundamental_div_mod(s, d);
    }
    assert(s <= d * m) by (nonlinear_arith)
        requires
            s == i * m,
            i < target_len,
            d == (if target_len > 1 { target_len - 1 } else { 1 }),
            m >= 0,
            i >= 0,
    ;
    assert(l <= m) by (nonlinear_arith)
        requires
            s == d * l + f,
            0 <= f,
            s <= d * m,
            d > 0,
    ;
    assert(f != 0 ==> l < m) by (nonlinear_arith)
        requires
            s == d * l + f,
            0 <= f,
            s <= d * m,
            d > 0,
            l <= m,
    ;
}

/// Where the cursor falls exactly on a source index (the first and the last
/// output index, and every index when the lengths agree), the position is that
/// index with no fraction.
proof fn lemma_exact_positions(source_len: nat, target_len: nat, i: nat)
    requires
        source_len > 0,
        target_len > 0,
        i < target_len,
    ensures
        i == 0 ==> left_index(source_len, target_len, i) == 0 && fract_num(
            source_len,
            target_len,
            i,
        ) == 0,
        (i == target_len - 1 && (target_len > 1 || source_len == 1)) ==> left_index(
            source_len,
            target_len,
            i,
        ) == source_len - 1 && fract_num(source_len, target_len, i) == 0,
        source_len == target_len ==> left_index(source_len, target_len, i) == i && fract_num(
            source_len,
            target_len,
            i,
        ) == 0,
{
    let d = step_den(target_len) as int;
    let m = (source_len - 1) as int;
    if i == 0 {
        assert(scaled_position(source_len, i) == 0);
    }
    if i == target_len - 1 && target_len > 1 {
        assert(scaled_position(source_len, i) == m * d) by (nonlinear_arith)
            requires
                scaled_position(source_len, i) == i * m,
                i == d,
        ;
        lemma_div_multiples_vanish(m, d);
        lemma_mod_multiples_basic(m, d);
    }
    if source_len == target_len && target_len > 1 {
        assert(scaled_position(source_len, i) == i * d) by (nonlinear_arith)
            requires
                scaled_position(source_len, i) == i * m,
                m == d,
        ;
        lemma_div_multiples_vanish(i as int, d);
        lemma_mod_multiples_basic(i as int, d);
    }
}

/// A resampling starts with the first source value, and ends with the last one
/// unless the whole source was collapsed to a single value (which is then the
/// first, not the last).
pub proof fn lemma_resampling_keeps_ends<T, F: Fn(T, T, usize, usize) -> T>(
    source: Seq<T>,
    target_len: nat,
    blend: F,
    r: Seq<T>,
)
    requires
        source.len() > 0,
        target_len > 0,
        is_resampling(source, target_len, blend, r),
    ensures
        r[0] == source[0],
        target_len > 1 || source.len() == 1 ==> r[target_len - 1] == source.last(),
{
    lemma_exact_positions(source.len(), target_len, 0);
    lemma_exact_positions(source.len(), target_len, (target_len - 1) as nat);
    assert(resampled_value(source, target_len, 0, blend, r[0]));
    assert(resampled_value(source, target_len, (target_len - 1) as nat, blend, r[target_len - 1]));
}

/// The cursor position of output index `i`: source index `left` plus the
/// fraction `num / den`.
struct Cursor {
    left: usize,
    num: usize,
    den: usize,
}

fn cursor_at(source_len: usize, target_len: usize, i: usize) -> (c: Cursor)
    requires
        source_len > 0,
        target_len > 0,
        i < target_len,
    ensures
        c.left == left_index(source_len as nat, target_len as nat, i as nat),
        c.num == fract_num(source_len as nat, target_len as nat, i as nat),
        c.den == step_den(target_len as nat),
{
    proof {
        lemma_cursor_in_source(source_len as nat, target_len as nat, i as nat);
    }
    let den: usize = if target_len > 1 {
        target_len - 1
    } else {
        1
    };
    let span: usize = source_len - 1;
    assert((i as u128) * (span as u128) <= u128::MAX) by (nonlinear_arith)
        requires
            i <= u64::MAX,
            span <= u64::MAX,
    ;
    let scaled: u128 = (i as u128) * (span as u128);
    let left = (scaled / (den as u128)) as usize;
    let num = (scaled % (den as u128)) as usize;
    Cursor { left, num, den }
}

/// Stretches or compresses `source` to exactly `target_len` values.
///
/// Output index `i` reads the source at the position `i * step`, where
/// `step = (source.len() - 1) / max(target_len - 1, 1)`. A position that falls on a
/// source index takes that source value as it is; one between two source indices
/// takes what `blend(left, right, num, den)` makes of the two neighbours at the
/// fraction `num / den`. When shrinking this samples the source at evenly spaced
/// positions; it does not average the values in between.
pub fn resample<T: Copy, F: Fn(T, T, usize, usize) -> T>(
    source: Vec<T>,
    target_len: usize,
    blend: &F,
) -> (r: Vec<T>)
    requires
        source@.len() > 0,
        target_len > 0,
        blend_ready(*blend),
    ensures
        is_resampling(source@, target_len as nat, *blend, r@),
        r@.len() == target_len,
        source@.len() == target_len ==> r@ == source@,
        r@[0] == source@[0],
        target_len > 1 || source@.len() == 1 ==> r@[target_len - 1] == source@.last(),
{
    let source_len = source.len();
    if source_len == target_len {
        assert forall|i: int| 0 <= i < target_len implies resampled_value(
            source@,
            target_len as nat,
            i as nat,
            *blend,
            #[trigger] source@[i],
        ) by {
            lemma_exact_positions(source_len as nat, target_len as nat, i as nat);
        }
        return source;
    }
    let mut result: Vec<T> = Vec::with_capacity(target_len);
    let mut i: usize = 0;
    while i < target_len
        invariant
            source@.len() == source_len,
            source_len > 0,
            target_len > 0,
            i <= target_len,
            result@.len() == i,
            blend_ready(*blend),
            forall|j: int|
                #![trigger result@[j]]
                0 <= j < i ==> resampled_value(
                    source@,
                    target_len as nat,
                    j as nat,
                    *blend,
                    result@[j],
                ),
        decreases target_len - i,
    {
        proof {
            lemma_cursor_in_source(source_len as nat, target_len as nat, i as nat);
        }
        let c = cursor_at(source_len, target_len, i);
        let v = if c.num == 0 {
            source[c.left]
        } else {
            blend(source[c.left], source[c.left + 1], c.num, c.den)
        };
        result.push(v);
        i = i + 1;
    }
    proof {
        lemma_resampling_keeps_ends(source@, target_len as nat, *blend, result@);
    }
    result
}

} // verus!
