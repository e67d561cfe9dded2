//! Rendering match results as an HTML fragment.
//!
//! Each match renders as one line: the key, a space, and the bracketed
//! identifier list, closed by a line-break tag. A key with more than
//! `MAX_IDS_PER_KEY` identifiers shows exactly the first
//! `MAX_IDS_PER_KEY`, in stored order. Lines follow the match
//! sequence's order, and the whole body is wrapped in minimal document
//! markup.

use vstd::prelude::*;

use crate::index::view_matches;

verus! {

/// Largest number of identifiers rendered for a single key.
pub const MAX_IDS_PER_KEY: usize = 10;

/// The decimal digits of `n`, most significant first.
pub open spec fn dec_rep(n: u64) -> Seq<u8>
    decreases n,
{
    if n < 10 {
        seq![(n + 48) as u8]
    } else {
        dec_rep(n / 10).push(((n % 10) + 48) as u8)
    }
}

/// The identifiers, rendered in decimal and separated by ", ".
pub open spec fn render_ids(ids: Seq<u64>) -> Seq<u8>
    decreases ids.len(),
{
    if ids.len() == 0 {
        Seq::empty()
    } else if ids.len() == 1 {
        dec_rep(ids[0])
    } else {
        render_ids(ids.drop_last()) + seq![44u8, 32u8] + dec_rep(ids.last())
    }
}

/// At most the first `MAX_IDS_PER_KEY` identifiers, in stored order.
pub open spec fn truncate_ids(ids: Seq<u64>) -> Seq<u64> {
    if ids.len() <= MAX_IDS_PER_KEY {
        ids
    } else {
        ids.take(MAX_IDS_PER_KEY as int)
    }
}

/// One rendered match line: the key, its truncated identifier list in
/// brackets, and a line-break tag.
pub open spec fn spec_render_line(key: Seq<u8>, ids: Seq<u64>) -> Seq<u8> {
    key + seq![32u8, 91u8] + render_ids(truncate_ids(ids)) + seq![93u8] + br_tag()
}

/// The bytes of "<br/>".
pub open spec fn br_tag() -> Seq<u8> {
    seq![60u8, 98u8, 114u8, 47u8, 62u8]
}

/// The bytes of "<html><body>".
pub open spec fn html_open() -> Seq<u8> {
    seq![60u8, 104u8, 116u8, 109u8, 108u8, 62u8, 60u8, 98u8, 111u8, 100u8, 121u8, 62u8]
}

/// The bytes of "</body></html>".
pub open spec fn html_close() -> Seq<u8> {
    seq![60u8, 47u8, 98u8, 111u8, 100u8, 121u8, 62u8, 60u8, 47u8, 104u8, 116u8, 109u8, 108u8, 62u8]
}

/// The match lines, in the match sequence's order.
pub open spec fn spec_render_lines(ms: Seq<(Seq<u8>, Seq<u64>)>) -> Seq<u8>
    decreases ms.len(),
{
    if ms.len() == 0 {
        Seq::empty()
    } else {
        spec_render_lines(ms.drop_last()) + spec_render_line(ms.last().0, ms.last().1)
    }
}

/// The whole response body: the match lines inside document markup.
pub open spec fn spec_render_body(ms: Seq<(Seq<u8>, Seq<u64>)>) -> Seq<u8> {
    html_open() + spec_render_lines(ms) + html_close()
}

/// Appends the decimal digits of `n`.
fn push_dec(out: &mut Vec<u8>, n: u64)
    ensures
        final(out)@ == old(out)@ + dec_rep(n),
    decreases n,
{
    if n < 10 {
        out.push((n + 48) as u8);
        proof {
            assert(out@ =~= old(out)@ + dec_rep(n));
        }
    } else {
        push_dec(out, n / 10);
        out.push((n % 10 + 48) as u8);
        proof {
            assert(out@ =~= old(out)@ + dec_rep(n));
        }
    }
}

/// Appends the first `n` identifiers, separated by ", ".
fn push_ids(out: &mut Vec<u8>, ids: &Vec<u64>, n: usize)
    requires
        n <= ids@.len(),
    ensures
        final(out)@ == old(out)@ + render_ids(ids@.take(n as int)),
{
    let mut k: usize = 0;
    proof {
        assert(ids@.take(0) =~= Seq::<u64>::empty());
        assert(out@ =~= old(out)@ + render_ids(ids@.take(0)));
    }
    while k < n
        invariant
            n <= ids@.len(),
            k <= n,
            out@ == old(out)@ + render_ids(ids@.take(k as int)),
        decreases n - k,
    {
        if k > 0 {
            out.push(44u8);
            out.push(32u8);
        }
        push_dec(out, ids[k]);
        proof {
            assert(ids@.take(k + 1).drop_last() =~= ids@.take(k as int));
            assert(ids@.take(k + 1).last() == ids@[k as int]);
            if k == 0 {
                assert(out@ =~= old(out)@ + render_ids(ids@.take(k + 1)));
            } else {
                assert(out@ =~= old(out)@ + render_ids(ids@.take(k + 1)));
            }
        }
        k = k + 1;
    }
}

/// Appends all of `src`.
fn push_bytes(out: &mut Vec<u8>, src: &Vec<u8>)
    ensures
        final(out)@ == old(out)@ + src@,
{
    let mut k: usize = 0;
    proof {
        assert(out@ =~= old(out)@ + src@.take(0));
    }
    while k < src.len()
        invariant
            k <= src@.len(),
            out@ == old(out)@ + src@.take(k as int),
        decreases src@.len() - k,
    {
        out.push(src[k]);
        proof {
            assert(out@ =~= old(out)@ + src@.take(k + 1));
        }
        k = k + 1;
    }
    proof {
        assert(src@.take(src@.len() as int) =~= src@);
    }
}

/// Appends one match line for `key` and `ids`.
fn push_line(out: &mut Vec<u8>, key: &Vec<u8>, ids: &Vec<u64>)
    ensures
        final(out)@ == old(out)@ + spec_render_line(key@, ids@),
{
    push_bytes(out, key);
    out.push(32u8);
    out.push(91u8);
    let n = if ids.len() <= MAX_IDS_PER_KEY {
        ids.len()
    } else {
        MAX_IDS_PER_KEY
    };
    proof {
        if ids@.len() <= MAX_IDS_PER_KEY {
            assert(ids@.take(n as int) =~= truncate_ids(ids@));
        } else {
            assert(ids@.take(n as int) =~= truncate_ids(ids@));
        }
    }
    push_ids(out, ids, n);
    out.push(93u8);
    out.push(60u8);
    out.push(98u8);
    out.push(114u8);
    out.push(47u8);
    out.push(62u8);
    proof {
        assert(out@ =~= old(out)@ + spec_render_line(key@, ids@));
    }
}

/// Renders the response body for a sequence of matches.
pub fn render_body(matches: &Vec<(Vec<u8>, Vec<u64>)>) -> (r: Vec<u8>)
    ensures
        r@ == spec_render_body(view_matches(matches@)),
{
    let ghost vm = view_matches(matches@);
    let mut body: Vec<u8> = Vec::new();
    body.push(60u8);
    body.push(104u8);
    body.push(116u8);
    body.push(109u8);
    body.push(108u8);
    body.push(62u8);
    body.push(60u8);
    body.push(98u8);
    body.push(111u8);
    body.push(100u8);
    body.push(121u8);
    body.push(62u8);
    proof {
        assert(body@ =~= html_open() + spec_render_lines(vm.take(0)));
    }
    let mut i: usize = 0;
    while i < matches.len()
        invariant
            vm == view_matches(matches@),
            i <= vm.len(),
            body@ == html_open() + spec_render_lines(vm.take(i as int)),
        decreases vm.len() - i,
    {
        let m = &matches[i];
        push_line(&mut body, &m.0, &m.1);
        proof {
            assert(vm.take(i + 1).drop_last() =~= vm.take(i as int));
            assert(vm.take(i + 1).last() == vm[i as int]);
            assert(vm[i as int].0 == matches@[i as int].0@);
            assert(vm[i as int].1 == matches@[i as int].1@);
            assert(body@ =~= html_open() + spec_render_lines(vm.take(i + 1)));
        }
        i = i + 1;
    }
    proof {
        assert(vm.take(vm.len() as int) =~= vm);
    }
    body.push(60u8);
    body.push(47u8);
    body.push(98u8);
    body.push(111u8);
    body.push(100u8);
    body.push(121u8);
    body.push(62u8);
    body.push(60u8);
    body.push(47u8);
    body.push(104u8);
    body.push(116u8);
    body.push(109u8);
    body.push(108u8);
    body.push(62u8);
    proof {
        assert(body@ =~= spec_render_body(vm));
    }
    body
}

} // verus!
