//! Rendering buffered lines and splitting them into transmit-sized batches.
//!
//! A buffered line is rendered to its wire form (the line's bytes, a trailing
//! newline, gzip-compressed per line when compression is on).  Renders are
//! then walked in enqueue order: a render larger than the line cap is skipped,
//! a render that no longer fits the open batch closes it, and every kept
//! render is appended to the open batch.  A non-empty open batch is closed at
//! the end.

use crate::compress::gzip_bytes;
use crate::compress::gzip_of;
use vstd::prelude::*;
use vstd::seq_lib::lemma_flatten_concat;
use vstd::slice::slice_to_vec;

verus! {

/// Sum of the byte lengths of a sequence of lines.
pub open spec fn sum_lens(lines: Seq<Seq<u8>>) -> int
    decreases lines.len(),
{
    if lines.len() == 0 {
        0
    } else {
        sum_lens(lines.drop_last()) + lines.last().len()
    }
}

/// The byte-length sum grows by the length of a pushed line.
pub proof fn lemma_sum_lens_push(lines: Seq<Seq<u8>>, line: Seq<u8>)
    ensures
        sum_lens(lines.push(line)) == sum_lens(lines) + line.len(),
{
    assert(lines.push(line).drop_last() =~= lines);
}

/// The byte-length sum is never negative.
pub proof fn lemma_sum_lens_nonneg(lines: Seq<Seq<u8>>)
    ensures
        sum_lens(lines) >= 0,
    decreases lines.len(),
{
    if lines.len() > 0 {
        lemma_sum_lens_nonneg(lines.drop_last());
    }
}

/// The wire form of one line: its bytes, a trailing newline, compressed when
/// compression is on.
pub open spec fn rendered(line: Seq<u8>, gzip: bool) -> Seq<u8> {
    if gzip {
        gzip_of(line + seq![10u8])
    } else {
        line + seq![10u8]
    }
}

/// The wire forms of a whole buffer, in enqueue order.
pub open spec fn renders_of(lines: Seq<Seq<u8>>, gzip: bool) -> Seq<Seq<u8>> {
    lines.map_values(|l: Seq<u8>| rendered(l, gzip))
}

/// The byte sequences that fit within the single-line cap, in order.  The
/// cap is applied twice on the way to the wire: at intake on a line's raw
/// bytes, and at batch construction on its rendered form.
pub open spec fn kept(renders: Seq<Seq<u8>>, max_line: int) -> Seq<Seq<u8>>
    decreases renders.len(),
{
    if renders.len() == 0 {
        Seq::empty()
    } else if renders.first().len() <= max_line {
        seq![renders.first()] + kept(renders.drop_first(), max_line)
    } else {
        kept(renders.drop_first(), max_line)
    }
}

/// The byte-length sum distributes over concatenation.
pub proof fn lemma_sum_lens_concat(a: Seq<Seq<u8>>, b: Seq<Seq<u8>>)
    ensures
        sum_lens(a + b) == sum_lens(a) + sum_lens(b),
    decreases b.len(),
{
    if b.len() == 0 {
        assert(a + b =~= a);
    } else {
        assert((a + b).drop_last() =~= a + b.drop_last());
        assert((a + b).last() == b.last());
        lemma_sum_lens_concat(a, b.drop_last());
        assert(b.drop_last().push(b.last()) =~= b);
        lemma_sum_lens_push(b.drop_last(), b.last());
    }
}

/// Rendering distributes over concatenation.
pub proof fn lemma_renders_concat(a: Seq<Seq<u8>>, b: Seq<Seq<u8>>, gzip: bool)
    ensures
        renders_of(a + b, gzip) == renders_of(a, gzip) + renders_of(b, gzip),
{
    assert(renders_of(a + b, gzip) =~= renders_of(a, gzip) + renders_of(b, gzip));
}

/// Keeping distributes over concatenation.
pub proof fn lemma_kept_concat(a: Seq<Seq<u8>>, b: Seq<Seq<u8>>, max_line: int)
    ensures
        kept(a + b, max_line) == kept(a, max_line) + kept(b, max_line),
    decreases a.len(),
{
    if a.len() == 0 {
        assert(a + b =~= b);
        assert(kept(a, max_line) + kept(b, max_line) =~= kept(b, max_line));
    } else {
        assert((a + b).len() > 0);
        assert((a + b).first() == a.first());
        assert((a + b).drop_first() =~= a.drop_first() + b);
        lemma_kept_concat(a.drop_first(), b, max_line);
        if a.first().len() <= max_line {
            assert(seq![a.first()] + (kept(a.drop_first(), max_line) + kept(b, max_line)) =~= (
            seq![a.first()] + kept(a.drop_first(), max_line)) + kept(b, max_line));
        }
    }
}

/// Keeping a single sequence keeps or drops exactly it.
pub proof fn lemma_kept_singleton(r: Seq<u8>, max_line: int)
    ensures
        kept(seq![r], max_line) == if r.len() <= max_line {
            seq![r]
        } else {
            Seq::<Seq<u8>>::empty()
        },
{
    assert(seq![r].drop_first() =~= Seq::<Seq<u8>>::empty());
    assert(kept(Seq::<Seq<u8>>::empty(), max_line) =~= Seq::<Seq<u8>>::empty());
    if r.len() <= max_line {
        assert(kept(seq![r], max_line) =~= seq![r]);
    } else {
        assert(kept(seq![r], max_line) =~= Seq::<Seq<u8>>::empty());
    }
}

/// Every kept render fits within the single-line cap.
pub proof fn lemma_kept_fits(renders: Seq<Seq<u8>>, max_line: int)
    ensures
        forall|i: int|
            0 <= i < kept(renders, max_line).len() ==> #[trigger] kept(renders, max_line)[i].len()
                <= max_line,
    decreases renders.len(),
{
    if renders.len() > 0 {
        let rest = renders.drop_first();
        lemma_kept_fits(rest, max_line);
        let res = kept(renders, max_line);
        let tail = kept(rest, max_line);
        if renders.first().len() <= max_line {
            assert forall|i: int| 0 <= i < res.len() implies #[trigger] res[i].len()
                <= max_line by {
                if i == 0 {
                    assert(res[0] == renders.first());
                } else {
                    assert(res[i] == tail[i - 1]);
                }
            }
        } else {
            assert forall|i: int| 0 <= i < res.len() implies #[trigger] res[i].len()
                <= max_line by {
                assert(res[i] == tail[i]);
            }
        }
    }
}

/// When every render fits the single-line cap, nothing is skipped.
pub proof fn lemma_kept_all(renders: Seq<Seq<u8>>, max_line: int)
    requires
        forall|i: int| 0 <= i < renders.len() ==> #[trigger] renders[i].len() <= max_line,
    ensures
        kept(renders, max_line) == renders,
    decreases renders.len(),
{
    if renders.len() > 0 {
        let rest = renders.drop_first();
        assert(renders.first() == renders[0]);
        assert(forall|i: int| 0 <= i < rest.len() ==> rest[i] == #[trigger] renders[i + 1]);
        lemma_kept_all(rest, max_line);
        assert(seq![renders.first()] + rest =~= renders);
    }
}

/// When every render fits the single-line cap, the batch bodies concatenated
/// reconstruct every render, in enqueue order.
pub proof fn lemma_batches_reconstruct(renders: Seq<Seq<u8>>, max_line: int, max_payload: int)
    requires
        forall|i: int| 0 <= i < renders.len() ==> #[trigger] renders[i].len() <= max_line,
    ensures
        batches_of(renders, max_line, max_payload).flatten() == renders.flatten(),
{
    lemma_batched_flatten(renders, max_line, max_payload, Seq::empty());
    lemma_kept_all(renders, max_line);
    assert(Seq::<u8>::empty() + renders.flatten() =~= renders.flatten());
}

/// Law: an oversized render never appears among the batch bodies, while the
/// fitting renders around it are all still sent, in order: the bodies
/// concatenated are exactly the renders within the line cap, and everything
/// kept is within that cap.
pub proof fn lemma_oversized_skipped(renders: Seq<Seq<u8>>, max_line: int, max_payload: int)
    ensures
        batches_of(renders, max_line, max_payload).flatten() == kept(renders, max_line).flatten(),
        forall|i: int|
            0 <= i < kept(renders, max_line).len() ==> #[trigger] kept(renders, max_line)[i].len()
                <= max_line,
{
    lemma_batched_flatten(renders, max_line, max_payload, Seq::empty());
    assert(Seq::<u8>::empty() + kept(renders, max_line).flatten() =~= kept(
        renders,
        max_line,
    ).flatten());
    lemma_kept_fits(renders, max_line);
}

/// The batches built from `renders` when `cur` is the open batch: a render
/// over `max_line` is skipped; a kept render that would push the open batch
/// past `max_payload` closes it first; a non-empty open batch is closed at
/// the end.
pub open spec fn batched(
    renders: Seq<Seq<u8>>,
    max_line: int,
    max_payload: int,
    cur: Seq<u8>,
) -> Seq<Seq<u8>>
    decreases renders.len(),
{
    if renders.len() == 0 {
        if cur.len() == 0 {
            Seq::empty()
        } else {
            seq![cur]
        }
    } else {
        let r = renders.first();
        let rest = renders.drop_first();
        if r.len() > max_line {
            batched(rest, max_line, max_payload, cur)
        } else if cur.len() > 0 && cur.len() + r.len() > max_payload {
            seq![cur] + batched(rest, max_line, max_payload, r)
        } else {
            batched(rest, max_line, max_payload, cur + r)
        }
    }
}

/// The batches built from a buffer of renders, starting with an empty batch.
pub open spec fn batches_of(renders: Seq<Seq<u8>>, max_line: int, max_payload: int) -> Seq<
    Seq<u8>,
> {
    batched(renders, max_line, max_payload, Seq::empty())
}

/// A singleton flattens to its one element.
proof fn lemma_flatten_singleton(s: Seq<u8>)
    ensures
        seq![s].flatten() == s,
{
    assert(seq![s].drop_first() =~= Seq::<Seq<u8>>::empty());
    assert(Seq::<Seq<u8>>::empty().flatten() == Seq::<u8>::empty());
    assert(seq![s].flatten() =~= s);
}

/// The bytes of the batches, concatenated, are the open batch followed by the
/// kept renders in enqueue order: nothing kept is lost, reordered or split
/// other than at batch boundaries, and skipped renders never appear.
pub proof fn lemma_batched_flatten(
    renders: Seq<Seq<u8>>,
    max_line: int,
    max_payload: int,
    cur: Seq<u8>,
)
    ensures
        batched(renders, max_line, max_payload, cur).flatten() == cur + kept(
            renders,
            max_line,
        ).flatten(),
    decreases renders.len(),
{
    if renders.len() == 0 {
        assert(kept(renders, max_line).flatten() == Seq::<u8>::empty());
        if cur.len() == 0 {
            assert(cur + Seq::<u8>::empty() =~= Seq::<u8>::empty());
        } else {
            lemma_flatten_singleton(cur);
            assert(cur + Seq::<u8>::empty() =~= cur);
        }
    } else {
        let r = renders.first();
        let rest = renders.drop_first();
        if r.len() > max_line {
            lemma_batched_flatten(rest, max_line, max_payload, cur);
            assert(kept(renders, max_line) == kept(rest, max_line));
        } else if cur.len() > 0 && cur.len() + r.len() > max_payload {
            lemma_batched_flatten(rest, max_line, max_payload, r);
            lemma_flatten_concat(seq![cur], batched(rest, max_line, max_payload, r));
            lemma_flatten_singleton(cur);
            lemma_flatten_concat(seq![r], kept(rest, max_line));
            lemma_flatten_singleton(r);
            assert(kept(renders, max_line) == seq![r] + kept(rest, max_line));
            assert(cur + (r + kept(rest, max_line).flatten()) =~= cur + kept(
                renders,
                max_line,
            ).flatten());
        } else {
            lemma_batched_flatten(rest, max_line, max_payload, cur + r);
            lemma_flatten_concat(seq![r], kept(rest, max_line));
            lemma_flatten_singleton(r);
            assert(kept(renders, max_line) == seq![r] + kept(rest, max_line));
            assert((cur + r) + kept(rest, max_line).flatten() =~= cur + kept(
                renders,
                max_line,
            ).flatten());
        }
    }
}

/// When the line cap is at most the payload cap and the open batch fits, every
/// batch built fits within the payload cap.
pub proof fn lemma_batched_bounded(
    renders: Seq<Seq<u8>>,
    max_line: int,
    max_payload: int,
    cur: Seq<u8>,
)
    requires
        max_line <= max_payload,
        cur.len() <= max_payload,
    ensures
        forall|i: int|
            0 <= i < batched(renders, max_line, max_payload, cur).len() ==> #[trigger] batched(
                renders,
                max_line,
                max_payload,
                cur,
            )[i].len() <= max_payload,
    decreases renders.len(),
{
    let res = batched(renders, max_line, max_payload, cur);
    if renders.len() == 0 {
        if cur.len() > 0 {
            assert(res == seq![cur]);
            assert(res[0] == cur);
        }
    } else {
        let r = renders.first();
        let rest = renders.drop_first();
        if r.len() > max_line {
            lemma_batched_bounded(rest, max_line, max_payload, cur);
            let tail = batched(rest, max_line, max_payload, cur);
            assert forall|i: int| 0 <= i < res.len() implies #[trigger] res[i].len()
                <= max_payload by {
                assert(res[i] == tail[i]);
            }
        } else if cur.len() > 0 && cur.len() + r.len() > max_payload {
            lemma_batched_bounded(rest, max_line, max_payload, r);
            let tail = batched(rest, max_line, max_payload, r);
            assert forall|i: int| 0 <= i < res.len() implies #[trigger] res[i].len()
                <= max_payload by {
                if i == 0 {
                    assert(res[0] == cur);
                } else {
                    assert(res[i] == tail[i - 1]);
                }
            }
        } else {
            lemma_batched_bounded(rest, max_line, max_payload, cur + r);
            let tail = batched(rest, max_line, max_payload, cur + r);
            assert forall|i: int| 0 <= i < res.len() implies #[trigger] res[i].len()
                <= max_payload by {
                assert(res[i] == tail[i]);
            }
        }
    }
}

/// Every batch built is non-empty: a batch is only ever closed with
/// something in it, so no empty request body is ever produced.
pub proof fn lemma_batched_nonempty(
    renders: Seq<Seq<u8>>,
    max_line: int,
    max_payload: int,
    cur: Seq<u8>,
)
    ensures
        forall|i: int|
            0 <= i < batched(renders, max_line, max_payload, cur).len() ==> #[trigger] batched(
                renders,
                max_line,
                max_payload,
                cur,
            )[i].len() > 0,
    decreases renders.len(),
{
    let res = batched(renders, max_line, max_payload, cur);
    if renders.len() == 0 {
        if cur.len() > 0 {
            assert(res == seq![cur]);
            assert(res[0] == cur);
        }
    } else {
        let r = renders.first();
        let rest = renders.drop_first();
        if r.len() > max_line {
            lemma_batched_nonempty(rest, max_line, max_payload, cur);
            let tail = batched(rest, max_line, max_payload, cur);
            assert forall|i: int| 0 <= i < res.len() implies #[trigger] res[i].len() > 0 by {
                assert(res[i] == tail[i]);
            }
        } else if cur.len() > 0 && cur.len() + r.len() > max_payload {
            lemma_batched_nonempty(rest, max_line, max_payload, r);
            let tail = batched(rest, max_line, max_payload, r);
            assert forall|i: int| 0 <= i < res.len() implies #[trigger] res[i].len() > 0 by {
                if i == 0 {
                    assert(res[0] == cur);
                } else {
                    assert(res[i] == tail[i - 1]);
                }
            }
        } else {
            lemma_batched_nonempty(rest, max_line, max_payload, cur + r);
            let tail = batched(rest, max_line, max_payload, cur + r);
            assert forall|i: int| 0 <= i < res.len() implies #[trigger] res[i].len() > 0 by {
                assert(res[i] == tail[i]);
            }
        }
    }
}

/// Render one line to its wire form.
pub fn render_line(line: &Vec<u8>, gzip: bool) -> (r: Vec<u8>)
    ensures
        r@ == rendered(line@, gzip),
{
    let mut w: Vec<u8> = slice_to_vec(line.as_slice());
    w.push(10u8);
    proof {
        assert(w@ =~= line@ + seq![10u8]);
    }
    if gzip {
        gzip_bytes(&w)
    } else {
        w
    }
}

/// Build the request bodies for a buffer of lines, in enqueue order.
///
/// Oversized renders are skipped, never sent; a kept render that would push
/// the open batch past `max_payload` closes it; a kept render that alone
/// exceeds `max_payload` (possible only when `max_line > max_payload`) stands
/// in a batch of its own, so no empty body is ever produced.
pub fn build_batches(
    lines: &Vec<Vec<u8>>,
    gzip: bool,
    max_line: usize,
    max_payload: usize,
) -> (r: Vec<Vec<u8>>)
    ensures
        r.deep_view() == batches_of(
            renders_of(lines.deep_view(), gzip),
            max_line as int,
            max_payload as int,
        ),
{
    let ghost renders = renders_of(lines.deep_view(), gzip);
    let ghost ml = max_line as int;
    let ghost mp = max_payload as int;
    let mut batches: Vec<Vec<u8>> = Vec::new();
    let mut batch: Vec<u8> = Vec::new();
    let mut i: usize = 0;
    proof {
        assert(renders.skip(0) =~= renders);
        assert(batches.deep_view() =~= Seq::<Seq<u8>>::empty());
        assert(batches.deep_view() + batched(renders.skip(0), ml, mp, batch@) =~= batched(
            renders,
            ml,
            mp,
            Seq::empty(),
        ));
    }
    while i < lines.len()
        invariant
            i <= lines.len(),
            renders == renders_of(lines.deep_view(), gzip),
            renders.len() == lines@.len(),
            ml == max_line as int,
            mp == max_payload as int,
            batches.deep_view() + batched(renders.skip(i as int), ml, mp, batch@) == batched(
                renders,
                ml,
                mp,
                Seq::empty(),
            ),
        decreases lines.len() - i,
    {
        let mut content = render_line(&lines[i], gzip);
        let ghost c = content@;
        let ghost rem = renders.skip(i as int);
        let ghost prev_batches = batches.deep_view();
        let ghost prev_batch = batch@;
        proof {
            assert(lines.deep_view()[i as int] =~= lines@[i as int]@);
            assert(rem.len() == renders.len() - i);
            assert(rem.first() == renders[i as int]);
            assert(renders[i as int] == rendered(lines.deep_view()[i as int], gzip));
            assert(rem.first() == c);
            assert(rem.drop_first() =~= renders.skip(i as int + 1));
        }
        if content.len() > max_line {
            // An oversized render is skipped and never sent.
            proof {
                assert(batched(rem, ml, mp, prev_batch) == batched(
                    renders.skip(i as int + 1),
                    ml,
                    mp,
                    prev_batch,
                ));
            }
        } else {
            let closes: bool = if batch.len() > max_payload {
                true
            } else {
                content.len() > max_payload - batch.len()
            };
            proof {
                assert(closes == (prev_batch.len() + c.len() > mp));
            }
            if batch.len() > 0 && closes {
                batches.push(batch);
                batch = Vec::new();
                batch.append(&mut content);
                proof {
                    assert(batch@ =~= c);
                    assert(batches.deep_view() =~~= prev_batches.push(prev_batch));
                    assert(batched(rem, ml, mp, prev_batch) == seq![prev_batch] + batched(
                        renders.skip(i as int + 1),
                        ml,
                        mp,
                        c,
                    ));
                    assert(prev_batches.push(prev_batch) + batched(
                        renders.skip(i as int + 1),
                        ml,
                        mp,
                        c,
                    ) =~= prev_batches + (seq![prev_batch] + batched(
                        renders.skip(i as int + 1),
                        ml,
                        mp,
                        c,
                    )));
                }
            } else {
                batch.append(&mut content);
                proof {
                    assert(batch@ =~= prev_batch + c);
                    assert(batched(rem, ml, mp, prev_batch) == batched(
                        renders.skip(i as int + 1),
                        ml,
                        mp,
                        prev_batch + c,
                    ));
                }
            }
        }
        i = i + 1;
    }
    proof {
        assert(renders.skip(lines@.len() as int) =~= Seq::<Seq<u8>>::empty());
    }
    let ghost prev_batches = batches.deep_view();
    let ghost last_batch = batch@;
    if batch.len() > 0 {
        batches.push(batch);
        proof {
            assert(batches.deep_view() =~~= prev_batches.push(last_batch));
            assert(batched(Seq::<Seq<u8>>::empty(), ml, mp, last_batch) == seq![last_batch]);
            assert(prev_batches.push(last_batch) =~= prev_batches + seq![last_batch]);
        }
    } else {
        proof {
            assert(last_batch =~= Seq::<u8>::empty());
            assert(batched(Seq::<Seq<u8>>::empty(), ml, mp, last_batch)
                == Seq::<Seq<u8>>::empty());
            assert(prev_batches + Seq::<Seq<u8>>::empty() =~= prev_batches);
        }
    }
    batches
}

} // verus!
