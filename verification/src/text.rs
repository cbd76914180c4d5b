//! Text handling: decimal numbers, cutting and splitting messages.

use vstd::prelude::*;

verus! {

broadcast use vstd::seq_lib::group_seq_properties;

// ----- decimal numbers -----

pub open spec fn is_digit(c: char) -> bool {
    '0' <= c && c <= '9'
}

pub open spec fn digit_value(c: char) -> int {
    (c as int) - ('0' as int)
}

pub open spec fn all_digits(s: Seq<char>) -> bool {
    forall|i: int| 0 <= i < s.len() ==> is_digit(#[trigger] s[i])
}

/// The number that a string of decimal digits denotes.
pub open spec fn decimal_value(s: Seq<char>) -> int
    decreases s.len(),
{
    if s.len() == 0 {
        0
    } else {
        10 * decimal_value(s.drop_last()) + digit_value(s.last())
    }
}

/// The digits of an unsigned number: an optional leading `+` is dropped.
pub open spec fn unsigned_digits(s: Seq<char>) -> Seq<char> {
    if s.len() > 0 && s[0] == '+' {
        s.drop_first()
    } else {
        s
    }
}

/// How the standard library reads a `u64`: an optional `+`, then at least one
/// decimal digit and nothing else, denoting a number that fits.
pub open spec fn spec_parse_u64(s: Seq<char>) -> Option<u64> {
    let d = unsigned_digits(s);
    if d.len() > 0 && all_digits(d) && decimal_value(d) <= u64::MAX {
        Some(decimal_value(d) as u64)
    } else {
        None
    }
}

/// How the standard library reads a `usize`.
pub open spec fn spec_parse_usize(s: Seq<char>) -> Option<usize> {
    match spec_parse_u64(s) {
        Some(v) => if v <= usize::MAX {
            Some(v as usize)
        } else {
            None
        },
        None => None,
    }
}

proof fn lemma_decimal_nonneg(s: Seq<char>)
    requires
        all_digits(s),
    ensures
        decimal_value(s) >= 0,
    decreases s.len(),
{
    if s.len() > 0 {
        assert(is_digit(s[s.len() - 1]));
        lemma_decimal_nonneg(s.drop_last());
    }
}

/// A number is at least the number that any prefix of its digits denotes.
proof fn lemma_decimal_prefix(s: Seq<char>, k: int)
    requires
        all_digits(s),
        0 <= k <= s.len(),
    ensures
        decimal_value(s.subrange(0, k)) <= decimal_value(s),
    decreases s.len(),
{
    if k < s.len() {
        assert(is_digit(s[s.len() - 1]));
        lemma_decimal_prefix(s.drop_last(), k);
        assert(s.drop_last().subrange(0, k) =~= s.subrange(0, k));
        lemma_decimal_nonneg(s.drop_last());
    } else {
        assert(s.subrange(0, k) =~= s);
    }
}

/// Read a decimal `u64` as `str::parse::<u64>` does.
pub fn parse_u64(s: &str) -> (r: Option<u64>)
    ensures
        r == spec_parse_u64(s@),
{
    let n = s.unicode_len();
    let mut start: usize = 0;
    if n > 0 && s.get_char(0) == '+' {
        start = 1;
    }
    let ghost d = unsigned_digits(s@);
    assert(d =~= s@.subrange(start as int, n as int));
    if start >= n {
        return None;
    }
    let mut i: usize = start;
    let mut acc: u64 = 0;
    while i < n
        invariant
            n == s@.len(),
            start <= i <= n,
            start < n,
            d == unsigned_digits(s@),
            d == s@.subrange(start as int, n as int),
            all_digits(s@.subrange(start as int, i as int)),
            acc == decimal_value(s@.subrange(start as int, i as int)),
        decreases n - i,
    {
        let c = s.get_char(i);
        if !('0' <= c && c <= '9') {
            proof {
                assert(d[i - start] == c);
                assert(!all_digits(d));
            }
            return None;
        }
        let dv: u64 = ((c as u32) - ('0' as u32)) as u64;
        let ghost next = s@.subrange(start as int, i + 1);
        proof {
            assert(next.drop_last() =~= s@.subrange(start as int, i as int));
            assert(next.last() == c);
            assert(all_digits(next));
        }
        if acc > (u64::MAX - dv) / 10 {
            proof {
                assert(decimal_value(next) > u64::MAX);
                if all_digits(d) {
                    assert(d.subrange(0, i + 1 - start) =~= next);
                    lemma_decimal_prefix(d, i + 1 - start);
                }
            }
            return None;
        }
        acc = acc * 10 + dv;
        i = i + 1;
    }
    Some(acc)
}

/// Read a decimal `usize` as `str::parse::<usize>` does.
pub fn parse_usize(s: &str) -> (r: Option<usize>)
    ensures
        r == spec_parse_usize(s@),
{
    match parse_u64(s) {
        Some(v) => if v <= usize::MAX as u64 {
            Some(v as usize)
        } else {
            None
        },
        None => None,
    }
}

// ----- cutting messages -----

pub open spec fn min_nat(a: nat, b: nat) -> nat {
    if a <= b {
        a
    } else {
        b
    }
}

/// The first `len` characters of `msg` (all of them when it is shorter).
pub fn prune_msg(msg: &str, len: usize) -> (r: String)
    requires
        len > 0,
        msg@.len() > 0,
    ensures
        r@ == msg@.take(min_nat(len as nat, msg@.len()) as int),
{
    let n = msg.unicode_len();
    let m = if len < n {
        len
    } else {
        n
    };
    String::from_str(msg.substring_char(0, m))
}

/// `s` cut into pieces of `size` characters, the last one possibly shorter.
pub open spec fn char_chunks(s: Seq<char>, size: nat) -> Seq<Seq<char>>
    decreases s.len(),
{
    if s.len() == 0 || size == 0 {
        seq![]
    } else if s.len() <= size {
        seq![s]
    } else {
        seq![s.take(size as int)] + char_chunks(s.skip(size as int), size)
    }
}

/// The concatenation of a sequence of strings.
pub open spec fn concat_all(parts: Seq<Seq<char>>) -> Seq<char>
    decreases parts.len(),
{
    if parts.len() == 0 {
        seq![]
    } else {
        concat_all(parts.drop_last()) + parts.last()
    }
}

/// The views of a sequence of strings.
pub open spec fn views(v: Seq<String>) -> Seq<Seq<char>> {
    v.map_values(|x: String| x@)
}

proof fn lemma_concat_all_append(a: Seq<Seq<char>>, b: Seq<Seq<char>>)
    ensures
        concat_all(a + b) == concat_all(a) + concat_all(b),
    decreases b.len(),
{
    if b.len() == 0 {
        assert(a + b =~= a);
        assert(concat_all(a) + concat_all(b) =~= concat_all(a));
    } else {
        assert((a + b).drop_last() =~= a + b.drop_last());
        lemma_concat_all_append(a, b.drop_last());
        assert(concat_all(a + b) =~= concat_all(a) + concat_all(b));
    }
}

/// Cutting a string into pieces loses and adds nothing, and every piece is
/// non-empty and at most `size` characters long.
pub proof fn lemma_char_chunks(s: Seq<char>, size: nat)
    requires
        size > 0,
    ensures
        concat_all(char_chunks(s, size)) == s,
        forall|i: int|
            0 <= i < char_chunks(s, size).len() ==> 0 < (#[trigger] char_chunks(s, size)[i]).len()
                <= size,
    decreases s.len(),
{
    if s.len() == 0 {
        assert(concat_all(char_chunks(s, size)) =~= s);
    } else if s.len() <= size {
        assert(seq![s].drop_last() =~= Seq::<Seq<char>>::empty());
        assert(concat_all(Seq::<Seq<char>>::empty()) =~= seq![]);
        assert(concat_all(seq![s]) =~= s);
    } else {
        let head = seq![s.take(size as int)];
        let tail = char_chunks(s.skip(size as int), size);
        lemma_char_chunks(s.skip(size as int), size);
        lemma_concat_all_append(head, tail);
        assert(head.drop_last() =~= Seq::<Seq<char>>::empty());
        assert(concat_all(Seq::<Seq<char>>::empty()) =~= seq![]);
        assert(concat_all(head) =~= s.take(size as int));
        assert(s.take(size as int) + s.skip(size as int) =~= s);
        assert forall|i: int| 0 <= i < char_chunks(s, size).len() implies 0 < (
        #[trigger] char_chunks(s, size)[i]).len() <= size by {
            if i > 0 {
                assert(char_chunks(s, size)[i] == tail[i - 1]);
            }
        }
    }
}

/// Cut `s` into pieces of `size` characters.
pub fn chunk_chars(s: &str, size: usize) -> (r: Vec<String>)
    requires
        size > 0,
    ensures
        views(r@) == char_chunks(s@, size as nat),
{
    let n = s.unicode_len();
    let mut r: Vec<String> = Vec::new();
    let mut i: usize = 0;
    proof {
        assert(s@.skip(0) =~= s@);
        assert(views(r@) + char_chunks(s@.skip(0), size as nat) =~= char_chunks(s@, size as nat));
    }
    while i < n
        invariant
            n == s@.len(),
            i <= n,
            size > 0,
            views(r@) + char_chunks(s@.skip(i as int), size as nat) == char_chunks(s@, size as nat),
        decreases n - i,
    {
        let end = if n - i <= size {
            n
        } else {
            i + size
        };
        let piece = String::from_str(s.substring_char(i, end));
        proof {
            let rest = s@.skip(i as int);
            if n - i <= size {
                assert(piece@ =~= rest);
                assert(s@.skip(end as int).len() == 0);
                assert(char_chunks(s@.skip(end as int), size as nat) =~= Seq::<Seq<char>>::empty());
                assert(char_chunks(rest, size as nat) =~= seq![piece@] + char_chunks(
                    s@.skip(end as int),
                    size as nat,
                ));
            } else {
                assert(piece@ =~= rest.take(size as int));
                assert(rest.skip(size as int) =~= s@.skip(end as int));
            }
        }
        let ghost old_r = views(r@);
        r.push(piece);
        proof {
            assert(views(r@) =~= old_r.push(piece@));
            assert(views(r@) + char_chunks(s@.skip(end as int), size as nat) =~= old_r + (seq![
                piece@,
            ] + char_chunks(s@.skip(end as int), size as nat)));
        }
        i = end;
    }
    proof {
        assert(char_chunks(s@.skip(n as int), size as nat) =~= Seq::<Seq<char>>::empty());
        assert(views(r@) + Seq::<Seq<char>>::empty() =~= views(r@));
    }
    r
}

// ----- packing lines into messages -----

/// Length of a string in bytes, as UTF-8.
pub open spec fn byte_len(s: Seq<char>) -> nat {
    vstd::utf8::encode_utf8(s).len()
}

/// Packing state after the given parts: the finished messages and the one being filled.
pub open spec fn pack_state(parts: Seq<Seq<char>>, max: nat) -> (Seq<Seq<char>>, Seq<char>)
    decreases parts.len(),
{
    if parts.len() == 0 {
        (seq![], seq![])
    } else {
        let prev = pack_state(parts.drop_last(), max);
        let t = parts.last();
        if byte_len(prev.1) + byte_len(t) > max {
            (prev.0.push(prev.1), t)
        } else {
            (prev.0, prev.1 + t)
        }
    }
}

/// Parts appended in order into messages: a part that would take the current
/// message past `max` bytes starts a new one; a non-empty last message is kept.
pub open spec fn spec_pack(parts: Seq<Seq<char>>, max: nat) -> Seq<Seq<char>> {
    let st = pack_state(parts, max);
    if st.1.len() > 0 {
        st.0.push(st.1)
    } else {
        st.0
    }
}

/// The UTF-8 encoding of a concatenation is the concatenation of the encodings.
pub proof fn lemma_encode_utf8_append(a: Seq<char>, b: Seq<char>)
    ensures
        vstd::utf8::encode_utf8(a + b) == vstd::utf8::encode_utf8(a) + vstd::utf8::encode_utf8(b),
    decreases a.len(),
{
    if a.len() == 0 {
        assert(a + b =~= b);
        assert(vstd::utf8::encode_utf8(a) =~= Seq::<u8>::empty());
        assert(vstd::utf8::encode_utf8(a) + vstd::utf8::encode_utf8(b) =~= vstd::utf8::encode_utf8(b));
    } else {
        assert((a + b).drop_first() =~= a.drop_first() + b);
        assert((a + b)[0] == a[0]);
        lemma_encode_utf8_append(a.drop_first(), b);
        assert(vstd::utf8::encode_utf8(a + b) =~= vstd::utf8::encode_utf8(a) + vstd::utf8::encode_utf8(b));
    }
}

/// One packing step.
proof fn lemma_pack_step(ps: Seq<Seq<char>>, i: int, max: nat)
    requires
        0 <= i < ps.len(),
    ensures
        pack_state(ps.subrange(0, i + 1), max) == ({
            let prev = pack_state(ps.subrange(0, i), max);
            if byte_len(prev.1) + byte_len(ps[i]) > max {
                (prev.0.push(prev.1), ps[i])
            } else {
                (prev.0, prev.1 + ps[i])
            }
        }),
{
    assert(ps.subrange(0, i + 1).drop_last() =~= ps.subrange(0, i));
    assert(ps.subrange(0, i + 1).last() == ps[i]);
}

proof fn lemma_pack_state(parts: Seq<Seq<char>>, max: nat)
    ensures
        concat_all(pack_state(parts, max).0) + pack_state(parts, max).1 == concat_all(parts),
        forall|i: int|
            0 <= i < pack_state(parts, max).0.len() ==> byte_len(
                #[trigger] pack_state(parts, max).0[i],
            ) <= max || parts.contains(pack_state(parts, max).0[i]),
        byte_len(pack_state(parts, max).1) <= max || parts.contains(pack_state(parts, max).1),
    decreases parts.len(),
{
    if parts.len() == 0 {
        assert(concat_all(parts) =~= seq![]);
        assert(vstd::utf8::encode_utf8(Seq::<char>::empty()) =~= Seq::<u8>::empty());
    } else {
        let prev = pack_state(parts.drop_last(), max);
        let t = parts.last();
        lemma_pack_state(parts.drop_last(), max);
        assert(parts.contains(t)) by {
            assert(parts[parts.len() - 1] == t);
        }
        assert forall|x: Seq<char>| parts.drop_last().contains(x) implies parts.contains(x) by {
            let j = choose|j: int| 0 <= j < parts.drop_last().len() && parts.drop_last()[j] == x;
            assert(parts[j] == x);
        }
        if byte_len(prev.1) + byte_len(t) > max {
            assert(prev.0.push(prev.1).drop_last() =~= prev.0);
            assert(concat_all(prev.0.push(prev.1)) + t =~= concat_all(parts));
            assert forall|i: int| 0 <= i < prev.0.push(prev.1).len() implies byte_len(
                #[trigger] prev.0.push(prev.1)[i],
            ) <= max || parts.contains(prev.0.push(prev.1)[i]) by {
                if i < prev.0.len() {
                    assert(prev.0.push(prev.1)[i] == prev.0[i]);
                }
            }
        } else {
            assert(concat_all(prev.0) + (prev.1 + t) =~= concat_all(parts));
            lemma_encode_utf8_append(prev.1, t);
        }
    }
}

/// Packing keeps every character in order, and a packed message exceeds `max`
/// bytes only when it is a single part that is itself longer.
pub proof fn lemma_pack(parts: Seq<Seq<char>>, max: nat)
    ensures
        concat_all(spec_pack(parts, max)) == concat_all(parts),
        forall|i: int|
            0 <= i < spec_pack(parts, max).len() ==> byte_len(#[trigger] spec_pack(parts, max)[i])
                <= max || parts.contains(spec_pack(parts, max)[i]),
{
    lemma_pack_state(parts, max);
    let st = pack_state(parts, max);
    if st.1.len() > 0 {
        assert(st.0.push(st.1).drop_last() =~= st.0);
        assert forall|i: int| 0 <= i < st.0.push(st.1).len() implies byte_len(
            #[trigger] st.0.push(st.1)[i],
        ) <= max || parts.contains(st.0.push(st.1)[i]) by {
            if i < st.0.len() {
                assert(st.0.push(st.1)[i] == st.0[i]);
            }
        }
    } else {
        assert(st.1 =~= seq![]);
        assert(concat_all(st.0) + st.1 =~= concat_all(st.0));
    }
}

/// Length of `s` in bytes.
pub fn byte_length(s: &str) -> (n: usize)
    ensures
        n == byte_len(s@),
{
    s.as_bytes().len()
}

/// Join parts into messages of at most `max` bytes, in order.
pub fn pack_messages(parts: &Vec<String>, max: usize) -> (r: Vec<String>)
    ensures
        views(r@) == spec_pack(views(parts@), max as nat),
{
    let ghost ps = views(parts@);
    let mut r: Vec<String> = Vec::new();
    let mut cur = String::new();
    let mut i: usize = 0;
    proof {
        assert(ps.subrange(0, 0) =~= Seq::<Seq<char>>::empty());
        assert(views(r@) =~= Seq::<Seq<char>>::empty());
    }
    while i < parts.len()
        invariant
            ps == views(parts@),
            i <= parts.len(),
            views(r@) == pack_state(ps.subrange(0, i as int), max as nat).0,
            cur@ == pack_state(ps.subrange(0, i as int), max as nat).1,
        decreases parts.len() - i,
    {
        let tmp = &parts[i];
        let cur_len = byte_length(cur.as_str());
        let tmp_len = byte_length(tmp.as_str());
        proof {
            lemma_pack_step(ps, i as int, max as nat);
            assert(ps[i as int] == tmp@);
        }
        if cur_len > max || tmp_len > max - cur_len {
            let ghost old_r = views(r@);
            r.push(cur);
            cur = tmp.clone();
            proof {
                assert(views(r@) =~= old_r.push(pack_state(ps.subrange(0, i as int), max as nat).1));
            }
        } else {
            cur.append(tmp.as_str());
        }
        i = i + 1;
    }
    proof {
        assert(ps.subrange(0, parts.len() as int) =~= ps);
    }
    if !cur.as_str().is_empty() {
        let ghost old_r = views(r@);
        r.push(cur);
        proof {
            assert(views(r@) =~= old_r.push(pack_state(ps, max as nat).1));
        }
    }
    r
}

} // verus!
