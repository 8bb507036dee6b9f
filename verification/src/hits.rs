//! The hit counters of the hooks, as they are shown to the user.
use vstd::prelude::*;
use vstd::string::*;

use crate::loader::{hook_label, Hook};
use crate::text::{
    dec, dec_int, is_digit, lemma_dec_read_back, push_dec, str_eq,
};

verus! {

/// The sum of the per-CPU counters.
pub open spec fn total(vals: Seq<u64>) -> int
    decreases vals.len(),
{
    if vals.len() == 0 {
        0
    } else {
        total(vals.drop_last()) + vals.last()
    }
}

/// The two's-complement reading of a 64-bit number.
pub open spec fn signed(x: int) -> int {
    if x < 0x8000_0000_0000_0000 {
        x
    } else {
        x - 0x1_0000_0000_0000_0000
    }
}

/// The hits of one hook: the 64-bit sum of its counters, which wraps around,
/// or none where they cannot be read.
pub open spec fn hits_of(reading: Option<Seq<u64>>) -> int {
    match reading {
        Some(vals) => signed(total(vals) % 0x1_0000_0000_0000_0000),
        None => 0,
    }
}

/// What stands before the number of one hook in a line.
pub open spec fn hit_head(h: Hook) -> Seq<char> {
    " "@ + hook_label(h) + "="@
}

/// The hits of one hook as part of a line.
pub open spec fn hit_text(h: Hook, hits: int) -> Seq<char> {
    hit_head(h) + dec_int(hits)
}

/// The line that shows the hits of all hooks.
pub open spec fn line_text(connect: int, sendmsg: int, recvmsg: int) -> Seq<char> {
    hit_text(Hook::Connect, connect) + hit_text(Hook::Sendmsg, sendmsg) + hit_text(
        Hook::Recvmsg,
        recvmsg,
    )
}

/// Sums up the per-CPU counters of one hook.
pub fn hit_count(reading: &Option<Vec<u64>>) -> (r: i64)
    ensures
        r == (match reading {
            Some(vals) => hits_of(Some(vals@)),
            None => hits_of(None),
        }),
{
    let vals = match reading {
        Some(vals) => vals,
        None => {
            return 0;
        },
    };
    let mut sum: u64 = 0;
    let mut i: usize = 0;
    while i < vals.len()
        invariant
            i <= vals@.len(),
            sum == total(vals@.take(i as int)) % 0x1_0000_0000_0000_0000,
        decreases vals@.len() - i,
    {
        assert(vals@.take(i + 1).drop_last() =~= vals@.take(i as int));
        sum = sum.wrapping_add(vals[i]);
        i += 1;
    }
    assert(vals@.take(i as int) =~= vals@);
    if sum < 0x8000_0000_0000_0000 {
        sum as i64
    } else {
        (sum - 0x8000_0000_0000_0000) as i64 + i64::MIN
    }
}

fn push_hits(out: &mut String, h: Hook, hits: i64)
    ensures
        final(out)@ == old(out)@ + hit_text(h, hits as int),
{
    out.append(" ");
    out.append(h.label());
    out.append("=");
    if hits < 0 {
        out.push('-');
        push_dec(out, (-(hits as i128)) as u64);
    } else {
        push_dec(out, hits as u64);
    }
    assert(out@ =~= old(out)@ + hit_text(h, hits as int));
}

/// The line that shows the hits of all hooks.
pub fn hits_line(connect: i64, sendmsg: i64, recvmsg: i64) -> (r: String)
    ensures
        r@ == line_text(connect as int, sendmsg as int, recvmsg as int),
{
    let mut line = String::new();
    push_hits(&mut line, Hook::Connect, connect);
    push_hits(&mut line, Hook::Sendmsg, sendmsg);
    push_hits(&mut line, Hook::Recvmsg, recvmsg);
    assert(line@ =~= line_text(connect as int, sendmsg as int, recvmsg as int));
    line
}

/// One round of the watch: the line to print, which is there only where it
/// differs from the one printed last.
pub fn watch_hits(last: &str, connect: i64, sendmsg: i64, recvmsg: i64) -> (r: Option<String>)
    ensures
        match r {
            Some(line) => line@ != last@ && line@ == line_text(
                connect as int,
                sendmsg as int,
                recvmsg as int,
            ),
            None => last@ == line_text(connect as int, sendmsg as int, recvmsg as int),
        },
{
    let line = hits_line(connect, sendmsg, recvmsg);
    if str_eq(line.as_str(), last) {
        None
    } else {
        Some(line)
    }
}

/// The total of one counter is that counter, and the total of two readings
/// put one after the other is the sum of their totals, zeros or not.
pub proof fn law_total_adds_up(a: Seq<u64>, b: Seq<u64>, x: u64)
    ensures
        total(Seq::empty()) == 0,
        total(seq![x]) == x,
        total(a + b) == total(a) + total(b),
    decreases b.len(),
{
    reveal_with_fuel(total, 2);
    assert(seq![x].drop_last() =~= Seq::<u64>::empty());
    if b.len() == 0 {
        assert(a + b =~= a);
    } else {
        law_total_adds_up(a, b.drop_last(), x);
        assert((a + b).drop_last() =~= a + b.drop_last());
        assert((a + b).last() == b.last());
    }
}

/// Raising one counter by `d`, whatever the others are, raises the total by
/// `d`.
pub proof fn law_every_counter_counts(vals: Seq<u64>, i: int, d: u64)
    requires
        0 <= i < vals.len(),
        vals[i] + d <= u64::MAX,
    ensures
        total(vals.update(i, (vals[i] + d) as u64)) == total(vals) + d,
        (hits_of(Some(vals.update(i, (vals[i] + d) as u64))) - hits_of(Some(vals)) - d)
            % 0x1_0000_0000_0000_0000 == 0,
{
    let front = vals.take(i);
    let back = vals.skip(i + 1);
    let x = vals[i];
    let y = (vals[i] + d) as u64;
    assert(vals =~= front + seq![x] + back);
    assert(vals.update(i, y) =~= front + seq![y] + back);
    law_total_adds_up(front, seq![x], x);
    law_total_adds_up(front + seq![x], back, x);
    law_total_adds_up(front, seq![y], y);
    law_total_adds_up(front + seq![y], back, y);
    law_hits_are_the_total(vals);
    law_hits_are_the_total(vals.update(i, y));
}

/// The order of the counters does not matter.
pub proof fn law_order_does_not_matter(a: Seq<u64>, b: Seq<u64>)
    requires
        a.to_multiset() == b.to_multiset(),
    ensures
        total(a) == total(b),
        hits_of(Some(a)) == hits_of(Some(b)),
    decreases a.len(),
{
    broadcast use vstd::seq_lib::group_to_multiset_ensures;

    assert(a.len() == a.to_multiset().len() && b.len() == b.to_multiset().len());
    if a.len() == 0 {
        assert(a =~= b);
    } else {
        let x = a.last();
        assert(a.contains(x));
        assert(a.to_multiset().count(x) > 0);
        assert(b.contains(x));
        let i = choose|i: int| 0 <= i < b.len() && b[i] == x;
        let c = b.remove(i);
        assert(c.to_multiset() =~= b.to_multiset().remove(x));
        assert(a.drop_last() =~= a.remove(a.len() - 1));
        assert(a.drop_last().to_multiset() =~= a.to_multiset().remove(x));
        law_order_does_not_matter(a.drop_last(), c);
        let front = b.take(i);
        let back = b.skip(i + 1);
        assert(b =~= front + seq![x] + back);
        assert(c =~= front + back);
        law_total_adds_up(front, seq![x], x);
        law_total_adds_up(front + seq![x], back, x);
        law_total_adds_up(front, back, x);
        assert(a =~= a.drop_last() + seq![x]);
        law_total_adds_up(a.drop_last(), seq![x], x);
    }
}

/// The hits of a hook are the one 64-bit signed number that equals the total
/// of its counters up to a multiple of two to the 64th; a total that fits is
/// shown as it is. A reading that failed counts nothing.
pub proof fn law_hits_are_the_total(vals: Seq<u64>)
    ensures
        -0x8000_0000_0000_0000 <= hits_of(Some(vals)) < 0x8000_0000_0000_0000,
        (hits_of(Some(vals)) - total(vals)) % 0x1_0000_0000_0000_0000 == 0,
        0 <= total(vals),
        total(vals) < 0x8000_0000_0000_0000 ==> hits_of(Some(vals)) == total(vals),
        hits_of(None) == 0,
    decreases vals.len(),
{
    if vals.len() > 0 {
        law_hits_are_the_total(vals.drop_last());
    }
}

/// The line shows the number of each hook behind its label, in the order of
/// the hooks.
pub proof fn law_line_shows_all_hooks(connect: int, sendmsg: int, recvmsg: int)
    ensures
        line_text(connect, sendmsg, recvmsg) == " connect4="@ + dec_int(connect) + " sendmsg4="@
            + dec_int(sendmsg) + " recvmsg4="@ + dec_int(recvmsg),
{
    reveal_strlit(" ");
    reveal_strlit("=");
    reveal_strlit("connect4");
    reveal_strlit("sendmsg4");
    reveal_strlit("recvmsg4");
    reveal_strlit(" connect4=");
    reveal_strlit(" sendmsg4=");
    reveal_strlit(" recvmsg4=");
    assert(hit_head(Hook::Connect) =~= " connect4="@);
    assert(hit_head(Hook::Sendmsg) =~= " sendmsg4="@);
    assert(hit_head(Hook::Recvmsg) =~= " recvmsg4="@);
    assert(line_text(connect, sendmsg, recvmsg) =~= " connect4="@ + dec_int(connect)
        + " sendmsg4="@ + dec_int(sendmsg) + " recvmsg4="@ + dec_int(recvmsg));
}

/// Decimal notation is not empty and holds no blank.
proof fn lemma_dec_int(n: int)
    ensures
        forall|i: int| 0 <= i < dec_int(n).len() ==> #[trigger] dec_int(n)[i] != ' ',
        dec_int(n).len() > 0,
{
    let m = if n < 0 {
        (-n) as nat
    } else {
        n as nat
    };
    lemma_dec_read_back(m);
    assert forall|i: int| 0 <= i < dec_int(n).len() implies #[trigger] dec_int(n)[i] != ' ' by {
        if n < 0 {
            if i > 0 {
                assert(is_digit(dec(m)[i - 1]));
            }
        } else {
            assert(is_digit(dec(m)[i]));
        }
    }
}

proof fn lemma_dec_int_injective(a: int, b: int)
    requires
        dec_int(a) == dec_int(b),
    ensures
        a == b,
{
    let x = if a < 0 {
        (-a) as nat
    } else {
        a as nat
    };
    let y = if b < 0 {
        (-b) as nat
    } else {
        b as nat
    };
    lemma_dec_read_back(x);
    lemma_dec_read_back(y);
    assert(is_digit(dec(x)[0]));
    assert(is_digit(dec(y)[0]));
    if a < 0 {
        assert(dec_int(a)[0] == '-');
        assert(dec_int(a).skip(1) =~= dec(x));
    }
    if b < 0 {
        assert(dec_int(b)[0] == '-');
        assert(dec_int(b).skip(1) =~= dec(y));
    }
    assert((a < 0) == (b < 0));
    assert(dec(x) == dec(y));
}

/// Two texts without blanks that are followed by a blank are told apart.
proof fn lemma_blank_ends(x: Seq<char>, y: Seq<char>, u: Seq<char>, v: Seq<char>)
    requires
        x + u == y + v,
        forall|i: int| 0 <= i < x.len() ==> #[trigger] x[i] != ' ',
        forall|i: int| 0 <= i < y.len() ==> #[trigger] y[i] != ' ',
        u.len() > 0,
        v.len() > 0,
        u[0] == ' ',
        v[0] == ' ',
    ensures
        x == y,
        u == v,
{
    let w = x + u;
    assert(w[x.len() as int] == ' ');
    assert((y + v)[y.len() as int] == ' ');
    if x.len() < y.len() {
        assert((y + v)[x.len() as int] == y[x.len() as int]);
    } else if y.len() < x.len() {
        assert(w[y.len() as int] == x[y.len() as int]);
    }
    assert(x =~= w.take(x.len() as int));
    assert(y =~= (y + v).take(x.len() as int));
    assert(u =~= w.skip(x.len() as int));
    assert(v =~= (y + v).skip(x.len() as int));
}

proof fn lemma_head_starts_with_blank(h: Hook)
    ensures
        hit_head(h).len() > 0,
        hit_head(h)[0] == ' ',
{
    reveal_strlit(" ");
}

proof fn lemma_same_head(p: Seq<char>, u: Seq<char>, v: Seq<char>)
    requires
        p + u == p + v,
    ensures
        u == v,
{
    assert(u =~= (p + u).skip(p.len() as int));
    assert(v =~= (p + v).skip(p.len() as int));
}

/// The line as a chain of heads and numbers.
proof fn lemma_line_chain(a: (int, int, int))
    ensures
        line_text(a.0, a.1, a.2) == hit_head(Hook::Connect) + (dec_int(a.0) + (hit_head(
            Hook::Sendmsg,
        ) + (dec_int(a.1) + (hit_head(Hook::Recvmsg) + dec_int(a.2))))),
{
    let c = hit_head(Hook::Connect);
    let d = hit_head(Hook::Sendmsg);
    let e = hit_head(Hook::Recvmsg);
    let (x, y, z) = (dec_int(a.0), dec_int(a.1), dec_int(a.2));
    assert((c + x) + (d + y) + (e + z) =~= c + (x + (d + (y + (e + z)))));
}

/// The line changes whenever a counter does: equal lines show equal hits.
pub proof fn law_line_shows_every_change(a: (int, int, int), b: (int, int, int))
    requires
        line_text(a.0, a.1, a.2) == line_text(b.0, b.1, b.2),
    ensures
        a == b,
{
    let c = hit_head(Hook::Connect);
    let d = hit_head(Hook::Sendmsg);
    let e = hit_head(Hook::Recvmsg);
    lemma_head_starts_with_blank(Hook::Sendmsg);
    lemma_head_starts_with_blank(Hook::Recvmsg);
    let ra = e + dec_int(a.2);
    let rb = e + dec_int(b.2);
    let qa = d + (dec_int(a.1) + ra);
    let qb = d + (dec_int(b.1) + rb);
    lemma_line_chain(a);
    lemma_line_chain(b);
    lemma_same_head(c, dec_int(a.0) + qa, dec_int(b.0) + qb);
    lemma_dec_int(a.0);
    lemma_dec_int(b.0);
    assert(qa[0] == ' ' && qb[0] == ' ');
    lemma_blank_ends(dec_int(a.0), dec_int(b.0), qa, qb);
    lemma_same_head(d, dec_int(a.1) + ra, dec_int(b.1) + rb);
    lemma_dec_int(a.1);
    lemma_dec_int(b.1);
    assert(ra[0] == ' ' && rb[0] == ' ');
    lemma_blank_ends(dec_int(a.1), dec_int(b.1), ra, rb);
    lemma_same_head(e, dec_int(a.2), dec_int(b.2));
    lemma_dec_int_injective(a.0, b.0);
    lemma_dec_int_injective(a.1, b.1);
    lemma_dec_int_injective(a.2, b.2);
}

} // verus!
