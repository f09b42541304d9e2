//! Blending: the channel-wise mean of a non-empty sequence of colours, each
//! mean cut down to the whole number below it.

use crate::color::{ColorError, RGB};
use vstd::prelude::*;

verus! {

/// One of the three components of a colour.
pub enum Channel {
    Red,
    Green,
    Blue,
}

/// The value that colour `c` holds in channel `ch`.
pub open spec fn channel_of(c: RGB, ch: Channel) -> nat {
    match ch {
        Channel::Red => c.r as nat,
        Channel::Green => c.g as nat,
        Channel::Blue => c.b as nat,
    }
}

/// The sum of channel `ch` over all the colours of `s`.
pub open spec fn channel_sum(s: Seq<RGB>, ch: Channel) -> nat
    decreases s.len(),
{
    if s.len() == 0 {
        0
    } else {
        channel_sum(s.drop_last(), ch) + channel_of(s.last(), ch)
    }
}

/// The mean of channel `ch` over `s`, rounded down. Meaningful for a
/// non-empty `s` only.
pub open spec fn channel_mean(s: Seq<RGB>, ch: Channel) -> nat
    recommends
        s.len() > 0,
{
    channel_sum(s, ch) / s.len()
}

/// Whether each channel of `c` is the rounded-down mean of that channel
/// over `s`.
pub open spec fn is_mean_of(c: RGB, s: Seq<RGB>) -> bool {
    &&& c.r == channel_mean(s, Channel::Red)
    &&& c.g == channel_mean(s, Channel::Green)
    &&& c.b == channel_mean(s, Channel::Blue)
}

/// The blend of the colours of `s`: each channel is the rounded-down mean of
/// that channel. An empty `s` has no blend.
pub open spec fn blend(s: Seq<RGB>) -> Result<RGB, ColorError> {
    if s.len() == 0 {
        Err(ColorError::EmptyBlendSet)
    } else {
        Ok(
            RGB {
                r: channel_mean(s, Channel::Red) as u8,
                g: channel_mean(s, Channel::Green) as u8,
                b: channel_mean(s, Channel::Blue) as u8,
            },
        )
    }
}

/// A channel sum is at most 255 for each colour summed.
pub proof fn lemma_channel_sum_bound(s: Seq<RGB>, ch: Channel)
    ensures
        channel_sum(s, ch) <= 255 * s.len(),
    decreases s.len(),
{
    if s.len() > 0 {
        lemma_channel_sum_bound(s.drop_last(), ch);
    }
}

/// A channel mean is itself a channel value: it never exceeds 255, so the
/// blend holds the means exactly.
pub proof fn lemma_channel_mean_bound(s: Seq<RGB>, ch: Channel)
    requires
        s.len() > 0,
    ensures
        channel_mean(s, ch) <= 255,
{
    lemma_channel_sum_bound(s, ch);
    let total = channel_sum(s, ch) as int;
    let count = s.len() as int;
    assert(total / count <= 255) by (nonlinear_arith)
        requires
            count > 0,
            0 <= total <= 255 * count,
    ;
}

/// Summing one colour more adds that colour's channel value.
proof fn lemma_channel_sum_take(s: Seq<RGB>, i: int, ch: Channel)
    requires
        0 <= i < s.len(),
    ensures
        channel_sum(s.take(i + 1), ch) == channel_sum(s.take(i), ch) + channel_of(s[i], ch),
{
    assert(s.take(i + 1).drop_last() =~= s.take(i));
}

/// Taking the colour at index `i` out of `s` lowers the channel sum by that
/// colour's channel value.
proof fn lemma_channel_sum_remove(s: Seq<RGB>, i: int, ch: Channel)
    requires
        0 <= i < s.len(),
    ensures
        channel_sum(s, ch) == channel_sum(s.remove(i), ch) + channel_of(s[i], ch),
    decreases s.len(),
{
    if i == s.len() - 1 {
        assert(s.remove(i) =~= s.drop_last());
    } else {
        lemma_channel_sum_remove(s.drop_last(), i, ch);
        assert(s.remove(i).drop_last() =~= s.drop_last().remove(i));
    }
}

/// Two sequences that hold the same colours the same number of times have
/// the same channel sums, whatever the order of either.
pub proof fn lemma_channel_sum_rearranged(s: Seq<RGB>, t: Seq<RGB>, ch: Channel)
    requires
        s.to_multiset() == t.to_multiset(),
    ensures
        channel_sum(s, ch) == channel_sum(t, ch),
    decreases s.len(),
{
    s.to_multiset_ensures();
    t.to_multiset_ensures();
    if s.len() > 0 {
        let x = s.last();
        let rest = s.drop_last();
        assert(rest.push(x) =~= s);
        assert(t.to_multiset().count(x) > 0);
        let j = choose|j: int| 0 <= j < t.len() && t[j] == x;
        rest.to_multiset_ensures();
        assert(rest.to_multiset() =~= s.to_multiset().remove(x));
        assert(t.remove(j).to_multiset() =~= t.to_multiset().remove(x));
        lemma_channel_sum_rearranged(rest, t.remove(j), ch);
        lemma_channel_sum_remove(t, j, ch);
    }
}

/// Blending a single colour gives that colour back.
pub proof fn lemma_blend_single(c: RGB)
    ensures
        blend(seq![c]) == Ok::<RGB, ColorError>(c),
{
    reveal_with_fuel(channel_sum, 2);
}

/// The blend does not depend on the order of the colours: two sequences that
/// are rearrangements of one another have the same blend.
pub proof fn lemma_blend_rearranged(s: Seq<RGB>, t: Seq<RGB>)
    requires
        s.to_multiset() == t.to_multiset(),
    ensures
        blend(s) == blend(t),
{
    s.to_multiset_ensures();
    t.to_multiset_ensures();
    lemma_channel_sum_rearranged(s, t, Channel::Red);
    lemma_channel_sum_rearranged(s, t, Channel::Green);
    lemma_channel_sum_rearranged(s, t, Channel::Blue);
}

/// Averages the given colours channel by channel.
///
/// Each mean is rounded down, not to the nearest whole number: the mean of
/// 0 and 1 is 0. Fails with `EmptyBlendSet` exactly when `cols` is empty.
/// The sums are exact whatever the number of colours, and the result
/// depends on the colours alone.
pub fn rgb_blend(cols: &[RGB]) -> (res: Result<RGB, ColorError>)
    ensures
        res == blend(cols@),
        res matches Ok(c) ==> is_mean_of(c, cols@),
{
    let n: usize = cols.len();
    if n == 0 {
        return Err(ColorError::EmptyBlendSet);
    }
    let mut sum_r: u128 = 0;
    let mut sum_g: u128 = 0;
    let mut sum_b: u128 = 0;

    for i in 0..n
        invariant
            n == cols@.len(),
            sum_r == channel_sum(cols@.take(i as int), Channel::Red),
            sum_g == channel_sum(cols@.take(i as int), Channel::Green),
            sum_b == channel_sum(cols@.take(i as int), Channel::Blue),
    {
        proof {
            lemma_channel_sum_bound(cols@.take(i as int), Channel::Red);
            lemma_channel_sum_bound(cols@.take(i as int), Channel::Green);
            lemma_channel_sum_bound(cols@.take(i as int), Channel::Blue);
            lemma_channel_sum_take(cols@, i as int, Channel::Red);
            lemma_channel_sum_take(cols@, i as int, Channel::Green);
            lemma_channel_sum_take(cols@, i as int, Channel::Blue);
        }
        let c = &cols[i];
        sum_r += c.r as u128;
        sum_g += c.g as u128;
        sum_b += c.b as u128;
    }

    proof {
        assert(cols@.take(n as int) =~= cols@);
        lemma_channel_mean_bound(cols@, Channel::Red);
        lemma_channel_mean_bound(cols@, Channel::Green);
        lemma_channel_mean_bound(cols@, Channel::Blue);
    }
    let count: u128 = n as u128;
    Ok(RGB { r: (sum_r / count) as u8, g: (sum_g / count) as u8, b: (sum_b / count) as u8 })
}

/// Blending has no hidden state: whatever two calls of `rgb_blend` return
/// for the same colours, the two results are equal.
pub proof fn lemma_blend_repeatable(
    cols: &[RGB],
    first: Result<RGB, ColorError>,
    second: Result<RGB, ColorError>,
)
    requires
        call_ensures(rgb_blend, (cols,), first),
        call_ensures(rgb_blend, (cols,), second),
    ensures
        first == second,
{
}

} // verus!
