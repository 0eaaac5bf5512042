//! The task document: the whole task collection serialized as one byte
//! document, the unit stored under the repository's fixed logical key.
//!
//! The format is compact and self-describing: a little-endian count,
//! then per task the 128-bit identifier, the length-prefixed UTF-8 title,
//! an optional length-prefixed description, the length-prefixed tags, one
//! status byte, and the two timestamps. A decoded document always
//! re-serializes to exactly the bytes it came from: the decoder accepts
//! canonical encodings only.

use vstd::prelude::*;

use vstd::utf8::{decode_utf8, encode_utf8, valid_utf8};

use crate::codec::append_bytes;
use crate::tasks::{string_views, Task, TaskStatus};

verus! {

broadcast use vstd::slice::group_slice_axioms;

/// The mathematical content of a task: what the record means, independent of
/// how strings and vectors are represented.
pub ghost struct TaskView {
    pub id: u128,
    pub title: Seq<char>,
    pub description: Option<Seq<char>>,
    pub tags: Seq<Seq<char>>,
    pub status: TaskStatus,
    pub created_at: i64,
    pub updated_at: i64,
}

impl View for Task {
    type V = TaskView;

    open spec fn view(&self) -> TaskView {
        TaskView {
            id: self.id,
            title: self.title@,
            description: match self.description {
                Some(d) => Some(d@),
                None => None,
            },
            tags: self.tags@.map_values(|s: String| s@),
            status: self.status,
            created_at: self.created_at,
            updated_at: self.updated_at,
        }
    }
}

/// The views of a task sequence.
pub open spec fn views_of(ts: Seq<Task>) -> Seq<TaskView> {
    ts.map_values(|t: Task| t@)
}

/// Eight little-endian bytes of a 64-bit value.
pub open spec fn le64(x: u64) -> Seq<u8> {
    seq![
        (x & 0xff) as u8,
        ((x >> 8) & 0xff) as u8,
        ((x >> 16) & 0xff) as u8,
        ((x >> 24) & 0xff) as u8,
        ((x >> 32) & 0xff) as u8,
        ((x >> 40) & 0xff) as u8,
        ((x >> 48) & 0xff) as u8,
        ((x >> 56) & 0xff) as u8,
    ]
}

/// Sixteen little-endian bytes of a 128-bit value.
pub open spec fn le128(x: u128) -> Seq<u8> {
    le64(x as u64) + le64((x >> 64) as u64)
}

/// The byte standing for a status.
pub open spec fn status_byte(s: TaskStatus) -> u8 {
    match s {
        TaskStatus::Todo => 0,
        TaskStatus::InProgress => 1,
        TaskStatus::Done => 2,
    }
}

/// A string: the length of its UTF-8 form, then that form.
pub open spec fn spec_encode_str(s: Seq<char>) -> Seq<u8> {
    le64(encode_utf8(s).len() as u64) + encode_utf8(s)
}

/// A string list, strings in order.
pub open spec fn spec_encode_strs(ss: Seq<Seq<char>>) -> Seq<u8>
    decreases ss.len(),
{
    if ss.len() == 0 {
        Seq::empty()
    } else {
        spec_encode_str(ss.first()) + spec_encode_strs(ss.drop_first())
    }
}

/// An optional description: a presence byte, then the string if present.
pub open spec fn desc_enc(d: Option<Seq<char>>) -> Seq<u8> {
    match d {
        Some(s) => seq![1u8] + spec_encode_str(s),
        None => seq![0u8],
    }
}

/// One task record.
pub open spec fn spec_encode_task(t: TaskView) -> Seq<u8> {
    le128(t.id) + spec_encode_str(t.title) + desc_enc(t.description)
        + le64(t.tags.len() as u64) + spec_encode_strs(t.tags) + seq![status_byte(t.status)]
        + le64(t.created_at as u64) + le64(t.updated_at as u64)
}

/// A task list, tasks in order.
pub open spec fn spec_encode_task_list(ts: Seq<TaskView>) -> Seq<u8>
    decreases ts.len(),
{
    if ts.len() == 0 {
        Seq::empty()
    } else {
        spec_encode_task(ts.first()) + spec_encode_task_list(ts.drop_first())
    }
}

/// The whole document: the count, then the task records.
pub open spec fn spec_encode_tasks(ts: Seq<TaskView>) -> Seq<u8> {
    le64(ts.len() as u64) + spec_encode_task_list(ts)
}

/// Encoding a string list distributes over concatenation.
proof fn lemma_encode_strs_concat(a: Seq<Seq<char>>, b: Seq<Seq<char>>)
    ensures
        spec_encode_strs(a + b) == spec_encode_strs(a) + spec_encode_strs(b),
    decreases a.len(),
{
    if a.len() == 0 {
        assert(a + b =~= b);
        assert(spec_encode_strs(a) + spec_encode_strs(b) =~= spec_encode_strs(b));
    } else {
        assert((a + b).first() == a.first());
        assert((a + b).drop_first() =~= a.drop_first() + b);
        lemma_encode_strs_concat(a.drop_first(), b);
        assert(spec_encode_strs(a + b) =~= spec_encode_strs(a) + spec_encode_strs(b));
    }
}

/// Encoding a task list distributes over concatenation.
proof fn lemma_encode_task_list_concat(a: Seq<TaskView>, b: Seq<TaskView>)
    ensures
        spec_encode_task_list(a + b) == spec_encode_task_list(a) + spec_encode_task_list(b),
    decreases a.len(),
{
    if a.len() == 0 {
        assert(a + b =~= b);
        assert(spec_encode_task_list(a) + spec_encode_task_list(b) =~= spec_encode_task_list(b));
    } else {
        assert((a + b).first() == a.first());
        assert((a + b).drop_first() =~= a.drop_first() + b);
        lemma_encode_task_list_concat(a.drop_first(), b);
        assert(spec_encode_task_list(a + b) =~= spec_encode_task_list(a) + spec_encode_task_list(b));
    }
}

/// Append the little-endian bytes of `x`.
fn write_u64(out: &mut Vec<u8>, x: u64)
    ensures
        final(out)@ == old(out)@ + le64(x),
{
    out.push((x & 0xff) as u8);
    out.push(((x >> 8) & 0xff) as u8);
    out.push(((x >> 16) & 0xff) as u8);
    out.push(((x >> 24) & 0xff) as u8);
    out.push(((x >> 32) & 0xff) as u8);
    out.push(((x >> 40) & 0xff) as u8);
    out.push(((x >> 48) & 0xff) as u8);
    out.push(((x >> 56) & 0xff) as u8);
    proof {
        assert(out@ =~= old(out)@ + le64(x));
    }
}

/// Append a length-prefixed string.
fn write_str(out: &mut Vec<u8>, s: &str)
    ensures
        final(out)@ == old(out)@ + spec_encode_str(s@),
{
    let bs = s.as_bytes();
    write_u64(out, bs.len() as u64);
    append_bytes(out, bs);
    proof {
        assert(out@ =~= old(out)@ + spec_encode_str(s@));
    }
}

/// Append one task record.
#[verifier::rlimit(100)]
#[verifier::spinoff_prover]
fn write_task(out: &mut Vec<u8>, t: &Task)
    ensures
        final(out)@ == old(out)@ + spec_encode_task(t@),
{
    write_u64(out, #[verifier::truncate] (t.id as u64));
    write_u64(out, #[verifier::truncate] ((t.id >> 64) as u64));
    write_str(out, t.title.as_str());
    match &t.description {
        Some(d) => {
            out.push(1);
            write_str(out, d.as_str());
        },
        None => {
            out.push(0);
        },
    }
    write_u64(out, t.tags.len() as u64);
    let ghost mid = out@;
    let ghost tagviews = t@.tags;
    let mut k: usize = 0;
    while k < t.tags.len()
        invariant
            k <= t.tags@.len(),
            tagviews == t@.tags,
            tagviews.len() == t.tags@.len(),
            out@ == mid + spec_encode_strs(tagviews.take(k as int)),
        decreases t.tags@.len() - k,
    {
        write_str(out, t.tags[k].as_str());
        k = k + 1;
        proof {
            assert(tagviews.take(k as int) =~= tagviews.take(k as int - 1) + seq![tagviews[k as int - 1]]);
            lemma_encode_strs_concat(tagviews.take(k as int - 1), seq![tagviews[k as int - 1]]);
            assert(seq![tagviews[k as int - 1]].first() == tagviews[k as int - 1]);
            assert(seq![tagviews[k as int - 1]].drop_first() =~= Seq::<Seq<char>>::empty());
            assert(spec_encode_strs(Seq::<Seq<char>>::empty()) =~= Seq::<u8>::empty());
            assert(spec_encode_strs(seq![tagviews[k as int - 1]])
                =~= spec_encode_str(tagviews[k as int - 1]));
            assert(tagviews[k as int - 1] == t.tags@[k as int - 1]@);
            assert(out@ =~= mid + spec_encode_strs(tagviews.take(k as int)));
        }
    }
    proof {
        assert(tagviews.take(tagviews.len() as int) =~= tagviews);
    }
    match &t.status {
        TaskStatus::Todo => out.push(0),
        TaskStatus::InProgress => out.push(1),
        TaskStatus::Done => out.push(2),
    }
    write_u64(out, #[verifier::truncate] (t.created_at as u64));
    write_u64(out, #[verifier::truncate] (t.updated_at as u64));
    proof {
        assert(out@ =~= old(out)@ + spec_encode_task(t@));
    }
}

/// Serialize the whole collection as one document.
pub fn encode_tasks(tasks: &Vec<Task>) -> (r: Vec<u8>)
    ensures
        r@ == spec_encode_tasks(views_of(tasks@)),
{
    let mut out: Vec<u8> = Vec::new();
    write_u64(&mut out, tasks.len() as u64);
    let ghost head = out@;
    let ghost tviews = views_of(tasks@);
    let mut k: usize = 0;
    while k < tasks.len()
        invariant
            k <= tasks@.len(),
            tviews == views_of(tasks@),
            tviews.len() == tasks@.len(),
            out@ == head + spec_encode_task_list(tviews.take(k as int)),
        decreases tasks@.len() - k,
    {
        write_task(&mut out, &tasks[k]);
        k = k + 1;
        proof {
            assert(tviews.take(k as int) =~= tviews.take(k as int - 1) + seq![tviews[k as int - 1]]);
            lemma_encode_task_list_concat(tviews.take(k as int - 1), seq![tviews[k as int - 1]]);
            assert(seq![tviews[k as int - 1]].first() == tviews[k as int - 1]);
            assert(seq![tviews[k as int - 1]].drop_first() =~= Seq::<TaskView>::empty());
            assert(spec_encode_task_list(Seq::<TaskView>::empty()) =~= Seq::<u8>::empty());
            assert(spec_encode_task_list(seq![tviews[k as int - 1]])
                =~= spec_encode_task(tviews[k as int - 1]));
            assert(tviews[k as int - 1] == tasks@[k as int - 1]@);
            assert(out@ =~= head + spec_encode_task_list(tviews.take(k as int)));
        }
    }
    proof {
        assert(tviews.take(tviews.len() as int) =~= tviews);
        assert(out@ =~= spec_encode_tasks(views_of(tasks@)));
    }
    out
}

/// Relies on `String::from_utf8`: succeeds exactly on valid UTF-8 and
/// returns the string those bytes encode.
#[verifier::external_body]
fn string_from_utf8(v: Vec<u8>) -> (r: Option<String>)
    ensures
        r matches Some(s) ==> valid_utf8(v@) && s@ == decode_utf8(v@),
        valid_utf8(v@) ==> r is Some,
{
    String::from_utf8(v).ok()
}

/// The encoding of string `sv` sits at `pos` in `bytes`.
pub open spec fn str_fits(bytes: Seq<u8>, pos: int, sv: Seq<char>) -> bool {
    &&& 0 <= pos
    &&& pos + spec_encode_str(sv).len() <= bytes.len()
    &&& bytes.subrange(pos, pos + spec_encode_str(sv).len()) == spec_encode_str(sv)
}

/// The encoding of string list `svs` sits at `pos` in `bytes`.
pub open spec fn strs_fit(bytes: Seq<u8>, pos: int, svs: Seq<Seq<char>>) -> bool {
    &&& 0 <= pos
    &&& pos + spec_encode_strs(svs).len() <= bytes.len()
    &&& bytes.subrange(pos, pos + spec_encode_strs(svs).len()) == spec_encode_strs(svs)
}

/// The encoding of task `tv` sits at `pos` in `bytes`.
pub open spec fn task_fits(bytes: Seq<u8>, pos: int, tv: TaskView) -> bool {
    &&& 0 <= pos
    &&& pos + spec_encode_task(tv).len() <= bytes.len()
    &&& bytes.subrange(pos, pos + spec_encode_task(tv).len()) == spec_encode_task(tv)
}

/// The encoding of task list `tvs` sits at `pos` in `bytes`.
pub open spec fn task_list_fits(bytes: Seq<u8>, pos: int, tvs: Seq<TaskView>) -> bool {
    &&& 0 <= pos
    &&& pos + spec_encode_task_list(tvs).len() <= bytes.len()
    &&& bytes.subrange(pos, pos + spec_encode_task_list(tvs).len()) == spec_encode_task_list(tvs)
}

/// A region holding a concatenation splits into its two parts.
proof fn lemma_subrange_cat(bytes: Seq<u8>, pos: int, a: Seq<u8>, b: Seq<u8>)
    requires
        0 <= pos,
        pos + a.len() + b.len() <= bytes.len(),
        bytes.subrange(pos, pos + a.len() + b.len()) == a + b,
    ensures
        bytes.subrange(pos, pos + a.len()) == a,
        bytes.subrange(pos + a.len(), pos + a.len() + b.len()) == b,
{
    let whole = bytes.subrange(pos, pos + a.len() + b.len());
    assert forall|i: int| 0 <= i < a.len()
        implies bytes.subrange(pos, pos + a.len())[i] == a[i] by {
        assert(whole[i] == (a + b)[i]);
        assert(whole[i] == bytes[pos + i]);
        assert((a + b)[i] == a[i]);
        assert(bytes.subrange(pos, pos + a.len())[i] == bytes[pos + i]);
    }
    assert forall|i: int| 0 <= i < b.len()
        implies bytes.subrange(pos + a.len(), pos + a.len() + b.len())[i] == b[i] by {
        assert(whole[a.len() + i] == (a + b)[a.len() + i]);
        assert(whole[a.len() + i] == bytes[pos + a.len() + i]);
        assert((a + b)[a.len() + i] == b[i]);
        assert(bytes.subrange(pos + a.len(), pos + a.len() + b.len())[i]
            == bytes[pos + a.len() + i]);
    }
    assert(bytes.subrange(pos, pos + a.len()) =~= a);
    assert(bytes.subrange(pos + a.len(), pos + a.len() + b.len()) =~= b);
}

/// Two equal little-endian images come from the same value.
proof fn lemma_le64_injective(x: u64, y: u64)
    requires
        le64(x) == le64(y),
    ensures
        x == y,
{
    assert(le64(x)[0] == le64(y)[0]);
    assert(le64(x)[1] == le64(y)[1]);
    assert(le64(x)[2] == le64(y)[2]);
    assert(le64(x)[3] == le64(y)[3]);
    assert(le64(x)[4] == le64(y)[4]);
    assert(le64(x)[5] == le64(y)[5]);
    assert(le64(x)[6] == le64(y)[6]);
    assert(le64(x)[7] == le64(y)[7]);
    assert(x == y) by (bit_vector)
        requires
            (x & 0xff) as u8 == (y & 0xff) as u8,
            ((x >> 8) & 0xff) as u8 == ((y >> 8) & 0xff) as u8,
            ((x >> 16) & 0xff) as u8 == ((y >> 16) & 0xff) as u8,
            ((x >> 24) & 0xff) as u8 == ((y >> 24) & 0xff) as u8,
            ((x >> 32) & 0xff) as u8 == ((y >> 32) & 0xff) as u8,
            ((x >> 40) & 0xff) as u8 == ((y >> 40) & 0xff) as u8,
            ((x >> 48) & 0xff) as u8 == ((y >> 48) & 0xff) as u8,
            ((x >> 56) & 0xff) as u8 == ((y >> 56) & 0xff) as u8,
    ;
}

/// Read eight little-endian bytes at `pos`.
fn read_u64(bytes: &[u8], pos: usize) -> (r: Option<(u64, usize)>)
    requires
        pos <= bytes@.len(),
    ensures
        r matches Some(p) ==> p.1 == pos + 8 && p.1 <= bytes@.len()
            && bytes@.subrange(pos as int, p.1 as int) == le64(p.0),
        pos + 8 <= bytes@.len() <==> r is Some,
{
    if bytes.len() - pos < 8 {
        return None;
    }
    let x: u64 = (bytes[pos] as u64) | ((bytes[pos + 1] as u64) << 8)
        | ((bytes[pos + 2] as u64) << 16) | ((bytes[pos + 3] as u64) << 24)
        | ((bytes[pos + 4] as u64) << 32) | ((bytes[pos + 5] as u64) << 40)
        | ((bytes[pos + 6] as u64) << 48) | ((bytes[pos + 7] as u64) << 56);
    proof {
        let b0 = bytes@[pos as int];
        let b1 = bytes@[pos as int + 1];
        let b2 = bytes@[pos as int + 2];
        let b3 = bytes@[pos as int + 3];
        let b4 = bytes@[pos as int + 4];
        let b5 = bytes@[pos as int + 5];
        let b6 = bytes@[pos as int + 6];
        let b7 = bytes@[pos as int + 7];
        assert({
            &&& (x & 0xff) as u8 == b0
            &&& ((x >> 8) & 0xff) as u8 == b1
            &&& ((x >> 16) & 0xff) as u8 == b2
            &&& ((x >> 24) & 0xff) as u8 == b3
            &&& ((x >> 32) & 0xff) as u8 == b4
            &&& ((x >> 40) & 0xff) as u8 == b5
            &&& ((x >> 48) & 0xff) as u8 == b6
            &&& ((x >> 56) & 0xff) as u8 == b7
        }) by (bit_vector)
            requires
                x == (b0 as u64) | ((b1 as u64) << 8) | ((b2 as u64) << 16)
                    | ((b3 as u64) << 24) | ((b4 as u64) << 32) | ((b5 as u64) << 40)
                    | ((b6 as u64) << 48) | ((b7 as u64) << 56),
        ;
        assert(le64(x) =~= bytes@.subrange(pos as int, pos as int + 8));
    }
    Some((x, pos + 8))
}

/// Read a length-prefixed string at `pos`: exactly the encodings of
/// strings are accepted, and each string that fits is what comes back.
fn read_str(bytes: &[u8], pos: usize) -> (r: Option<(String, usize)>)
    requires
        pos <= bytes@.len(),
    ensures
        r matches Some(p) ==> pos + 8 <= p.1 <= bytes@.len()
            && bytes@.subrange(pos as int, p.1 as int) == spec_encode_str(p.0@),
        forall|sv: Seq<char>| #[trigger] str_fits(bytes@, pos as int, sv)
            ==> (r matches Some(p) && p.0@ == sv
                && p.1 == pos + spec_encode_str(sv).len()),
{
    proof {
        assert forall|sv: Seq<char>| #[trigger] str_fits(bytes@, pos as int, sv)
            implies {
                &&& pos + 8 <= pos + spec_encode_str(sv).len() <= bytes@.len()
                &&& bytes@.subrange(pos as int, pos as int + 8)
                    == le64(encode_utf8(sv).len() as u64)
                &&& bytes@.subrange(pos as int + 8, pos + spec_encode_str(sv).len())
                    == encode_utf8(sv)
            } by {
            lemma_subrange_cat(bytes@, pos as int, le64(encode_utf8(sv).len() as u64),
                encode_utf8(sv));
        }
    }
    let (len64, p) = match read_u64(bytes, pos) {
        Some(x) => x,
        None => {
            return None;
        },
    };
    if len64 > (bytes.len() - p) as u64 {
        proof {
            assert forall|sv: Seq<char>| !str_fits(bytes@, pos as int, sv) by {
                if str_fits(bytes@, pos as int, sv) {
                    lemma_le64_injective(len64, encode_utf8(sv).len() as u64);
                }
            }
        }
        return None;
    }
    let l = len64 as usize;
    let chunk = vstd::slice::slice_to_vec(vstd::slice::slice_subrange(bytes, p, p + l));
    let ghost chunk_view = chunk@;
    match string_from_utf8(chunk) {
        Some(s) => {
            proof {
                broadcast use vstd::utf8::decode_utf8_encode_utf8;

                assert(encode_utf8(s@) == chunk_view);
                assert(bytes@.subrange(pos as int, (p + l) as int)
                    =~= le64(len64) + encode_utf8(s@));
                assert forall|sv: Seq<char>| #[trigger] str_fits(bytes@, pos as int, sv)
                    implies s@ == sv && p + l == pos + spec_encode_str(sv).len() by {
                    broadcast use vstd::utf8::encode_utf8_decode_utf8;

                    lemma_le64_injective(len64, encode_utf8(sv).len() as u64);
                    assert(l == encode_utf8(sv).len());
                    assert(chunk_view =~= encode_utf8(sv));
                }
            }
            Some((s, p + l))
        },
        None => {
            proof {
                assert forall|sv: Seq<char>| !str_fits(bytes@, pos as int, sv) by {
                    if str_fits(bytes@, pos as int, sv) {
                        broadcast use vstd::utf8::encode_utf8_valid_utf8;

                        lemma_le64_injective(len64, encode_utf8(sv).len() as u64);
                        assert(chunk_view =~= encode_utf8(sv));
                    }
                }
            }
            None
        },
    }
}

/// A singleton list encodes as its one string.
proof fn lemma_encode_strs_singleton(sv: Seq<char>)
    ensures
        spec_encode_strs(seq![sv]) == spec_encode_str(sv),
{
    assert(seq![sv].first() == sv);
    assert(seq![sv].drop_first() =~= Seq::<Seq<char>>::empty());
    assert(spec_encode_strs(Seq::<Seq<char>>::empty()) =~= Seq::<u8>::empty());
    assert(spec_encode_strs(seq![sv]) =~= spec_encode_str(sv));
}

/// Read `count` length-prefixed strings at `pos`: exactly the encodings of
/// string lists are accepted, and each list that fits is what comes back.
fn read_strs(bytes: &[u8], pos: usize, count: u64) -> (r: Option<(Vec<String>, usize)>)
    requires
        pos <= bytes@.len(),
    ensures
        r matches Some(p) ==> pos <= p.1 <= bytes@.len()
            && bytes@.subrange(pos as int, p.1 as int) == spec_encode_strs(string_views(p.0@))
            && p.0@.len() == count,
        forall|svs: Seq<Seq<char>>|
            (svs.len() == count && #[trigger] strs_fit(bytes@, pos as int, svs))
            ==> (r matches Some(p) && string_views(p.0@) == svs
                && p.1 == pos + spec_encode_strs(svs).len()),
{
    let mut items: Vec<String> = Vec::new();
    let mut cur: usize = pos;
    let mut k: u64 = 0;
    proof {
        assert(string_views(items@) =~= Seq::<Seq<char>>::empty());
        assert(bytes@.subrange(pos as int, pos as int) =~= spec_encode_strs(string_views(items@)));
    }
    while k < count
        invariant
            pos <= cur <= bytes@.len(),
            k <= count,
            items@.len() == k,
            bytes@.subrange(pos as int, cur as int) == spec_encode_strs(string_views(items@)),
            forall|svs: Seq<Seq<char>>|
                (svs.len() == count && #[trigger] strs_fit(bytes@, pos as int, svs))
                ==> string_views(items@) == svs.take(k as int)
                    && cur == pos + spec_encode_strs(svs.take(k as int)).len(),
        decreases count - k,
    {
        proof {
            assert forall|svs: Seq<Seq<char>>|
                (svs.len() == count && #[trigger] strs_fit(bytes@, pos as int, svs))
                implies str_fits(bytes@, cur as int, svs[k as int]) by {
                lemma_strs_tail_fit(bytes@, pos as int, svs, k as int);
            }
        }
        let (s, q) = match read_str(bytes, cur) {
            Some(x) => x,
            None => {
                return None;
            },
        };
        let ghost s_view = s@;
        let ghost items0 = items@;
        let ghost cur0 = cur;
        items.push(s);
        cur = q;
        k = k + 1;
        proof {
            assert(string_views(items@) =~= string_views(items0) + seq![s_view]);
            lemma_encode_strs_concat(string_views(items0), seq![s_view]);
            lemma_encode_strs_singleton(s_view);
            assert(bytes@.subrange(cur0 as int, cur as int) == spec_encode_str(s_view));
            assert(bytes@.subrange(pos as int, cur as int)
                =~= bytes@.subrange(pos as int, cur0 as int)
                    + bytes@.subrange(cur0 as int, cur as int));
            assert(bytes@.subrange(pos as int, cur as int)
                =~= spec_encode_strs(string_views(items@)));
            assert forall|svs: Seq<Seq<char>>|
                (svs.len() == count && #[trigger] strs_fit(bytes@, pos as int, svs))
                implies string_views(items@) == svs.take(k as int)
                    && cur == pos + spec_encode_strs(svs.take(k as int)).len() by {
                lemma_strs_tail_fit(bytes@, pos as int, svs, k as int - 1);
                assert(s_view == svs[k as int - 1]);
                assert(svs.take(k as int) =~= svs.take(k as int - 1) + seq![svs[k as int - 1]]);
                lemma_encode_strs_concat(svs.take(k as int - 1), seq![svs[k as int - 1]]);
                lemma_encode_strs_singleton(svs[k as int - 1]);
                assert(string_views(items@) =~= svs.take(k as int));
            }
        }
    }
    proof {
        assert forall|svs: Seq<Seq<char>>|
            (svs.len() == count && #[trigger] strs_fit(bytes@, pos as int, svs))
            implies string_views(items@) == svs
                && cur == pos + spec_encode_strs(svs).len() by {
            assert(svs.take(k as int) =~= svs);
        }
    }
    Some((items, cur))
}

/// In a fitting string list, the element after the first `k` fits right
/// after their encodings.
proof fn lemma_strs_tail_fit(bytes: Seq<u8>, pos: int, svs: Seq<Seq<char>>, k: int)
    requires
        strs_fit(bytes, pos, svs),
        0 <= k < svs.len(),
    ensures
        str_fits(bytes, pos + spec_encode_strs(svs.take(k)).len(), svs[k]),
        pos + spec_encode_strs(svs.take(k)).len() + spec_encode_str(svs[k]).len()
            == pos + spec_encode_strs(svs.take(k + 1)).len(),
    decreases k,
{
    assert(svs.take(k + 1) =~= svs.take(k).push(svs[k]));
    assert(svs.take(k).push(svs[k]) =~= svs.take(k) + seq![svs[k]]);
    lemma_encode_strs_concat(svs.take(k), seq![svs[k]]);
    lemma_encode_strs_singleton(svs[k]);
    assert(svs =~= svs.take(k + 1) + svs.skip(k + 1));
    lemma_encode_strs_concat(svs.take(k + 1), svs.skip(k + 1));
    lemma_subrange_cat(bytes, pos, spec_encode_strs(svs.take(k + 1)),
        spec_encode_strs(svs.skip(k + 1)));
    lemma_subrange_cat(bytes, pos, spec_encode_strs(svs.take(k)), spec_encode_str(svs[k]));
}

/// Where each field of a task record sits, relative to its start.
pub open spec fn off_desc(tv: TaskView, pos: int) -> int {
    pos + 16 + spec_encode_str(tv.title).len()
}

/// The tag-count field's position.
pub open spec fn off_count(tv: TaskView, pos: int) -> int {
    off_desc(tv, pos) + desc_enc(tv.description).len()
}

/// The tag list's position.
pub open spec fn off_tags(tv: TaskView, pos: int) -> int {
    off_count(tv, pos) + 8
}

/// The status byte's position.
pub open spec fn off_status(tv: TaskView, pos: int) -> int {
    off_tags(tv, pos) + spec_encode_strs(tv.tags).len()
}

/// A string list's encoding is at least eight bytes per string.
proof fn lemma_encode_strs_len_lower(svs: Seq<Seq<char>>)
    ensures
        spec_encode_strs(svs).len() >= 8 * svs.len(),
    decreases svs.len(),
{
    if svs.len() > 0 {
        lemma_encode_strs_len_lower(svs.drop_first());
    }
}

/// Signed and unsigned 64-bit images convert back and forth.
proof fn lemma_i64_u64_roundtrip(x: i64)
    ensures
        ((x as u64) as i64) == x,
{
    assert(((x as u64) as i64) == x) by (bit_vector);
}

/// The reverse direction.
proof fn lemma_u64_i64_roundtrip(x: u64)
    ensures
        ((x as i64) as u64) == x,
{
    assert(((x as i64) as u64) == x) by (bit_vector);
}

/// A 128-bit value reassembles from its two 64-bit halves.
proof fn lemma_u128_reassemble(x: u128)
    ensures
        ((x as u64) as u128) | ((((x >> 64) as u64) as u128) << 64) == x,
{
    assert(((x as u64) as u128) | ((((x >> 64) as u64) as u128) << 64) == x) by (bit_vector);
}

/// In a fitting task record, each field sits at its offset.
proof fn lemma_task_decompose(bytes: Seq<u8>, pos: int, tv: TaskView)
    requires
        task_fits(bytes, pos, tv),
    ensures
        off_status(tv, pos) + 17 == pos + spec_encode_task(tv).len() <= bytes.len(),
        bytes.subrange(pos, pos + 8) == le64(tv.id as u64),
        bytes.subrange(pos + 8, pos + 16) == le64((tv.id >> 64) as u64),
        str_fits(bytes, pos + 16, tv.title),
        tv.description matches Some(d) ==> bytes[off_desc(tv, pos)] == 1
            && str_fits(bytes, off_desc(tv, pos) + 1, d),
        tv.description is None ==> bytes[off_desc(tv, pos)] == 0,
        bytes.subrange(off_count(tv, pos), off_tags(tv, pos)) == le64(tv.tags.len() as u64),
        strs_fit(bytes, off_tags(tv, pos), tv.tags),
        bytes[off_status(tv, pos)] == status_byte(tv.status),
        bytes.subrange(off_status(tv, pos) + 1, off_status(tv, pos) + 9)
            == le64(tv.created_at as u64),
        bytes.subrange(off_status(tv, pos) + 9, off_status(tv, pos) + 17)
            == le64(tv.updated_at as u64),
{
    let p_id = le128(tv.id);
    let p_t = spec_encode_str(tv.title);
    let p_d = desc_enc(tv.description);
    let p_c = le64(tv.tags.len() as u64);
    let p_g = spec_encode_strs(tv.tags);
    let p_s = seq![status_byte(tv.status)];
    let p_cr = le64(tv.created_at as u64);
    let p_u = le64(tv.updated_at as u64);
    lemma_subrange_cat(bytes, pos, p_id + p_t + p_d + p_c + p_g + p_s + p_cr, p_u);
    lemma_subrange_cat(bytes, pos, p_id + p_t + p_d + p_c + p_g + p_s, p_cr);
    lemma_subrange_cat(bytes, pos, p_id + p_t + p_d + p_c + p_g, p_s);
    lemma_subrange_cat(bytes, pos, p_id + p_t + p_d + p_c, p_g);
    lemma_subrange_cat(bytes, pos, p_id + p_t + p_d, p_c);
    lemma_subrange_cat(bytes, pos, p_id + p_t, p_d);
    lemma_subrange_cat(bytes, pos, p_id, p_t);
    lemma_subrange_cat(bytes, pos, le64(tv.id as u64), le64((tv.id >> 64) as u64));
    let od = off_desc(tv, pos);
    assert(bytes.subrange(od, od + p_d.len()) == p_d);
    match tv.description {
        Some(d) => {
            lemma_subrange_cat(bytes, od, seq![1u8], spec_encode_str(d));
            assert(bytes[od] == bytes.subrange(od, od + 1)[0]);
            assert(bytes.subrange(od, od + 1)[0] == seq![1u8][0]);
        },
        None => {
            assert(bytes[od] == bytes.subrange(od, od + 1)[0]);
            assert(bytes.subrange(od, od + 1)[0] == seq![0u8][0]);
        },
    }
    let os = off_status(tv, pos);
    assert(bytes[os] == bytes.subrange(os, os + 1)[0]);
    assert(bytes.subrange(os, os + 1)[0] == p_s[0]);
}

/// Length accounting for a fitting task record.
proof fn lemma_task_fit_len(bytes: Seq<u8>, pos: int, tv: TaskView)
    requires
        task_fits(bytes, pos, tv),
    ensures
        off_status(tv, pos) + 17 == pos + spec_encode_task(tv).len(),
        pos + spec_encode_task(tv).len() <= bytes.len(),
        off_desc(tv, pos) >= pos + 24,
        off_count(tv, pos) >= off_desc(tv, pos) + 1,
        off_tags(tv, pos) == off_count(tv, pos) + 8,
        off_status(tv, pos) >= off_tags(tv, pos),
{
}

/// Adjacent field images assemble into one task record.
proof fn lemma_task_assemble(
    bytes: Seq<u8>,
    pos: int,
    p5: int,
    p6: int,
    p7: int,
    p8: int,
    p9: int,
    p10: int,
    tvw: TaskView,
)
    requires
        0 <= pos <= p5 <= p6 <= p7 <= p8 <= p9 <= p10 <= bytes.len(),
        bytes.subrange(pos, p5) == le128(tvw.id) + spec_encode_str(tvw.title)
            + desc_enc(tvw.description),
        bytes.subrange(p5, p6) == le64(tvw.tags.len() as u64),
        bytes.subrange(p6, p7) == spec_encode_strs(tvw.tags),
        bytes.subrange(p7, p8) == seq![status_byte(tvw.status)],
        bytes.subrange(p8, p9) == le64(tvw.created_at as u64),
        bytes.subrange(p9, p10) == le64(tvw.updated_at as u64),
    ensures
        bytes.subrange(pos, p10) == spec_encode_task(tvw),
{
    assert(bytes.subrange(pos, p6) =~= bytes.subrange(pos, p5) + bytes.subrange(p5, p6));
    assert(bytes.subrange(pos, p7) =~= bytes.subrange(pos, p6) + bytes.subrange(p6, p7));
    assert(bytes.subrange(pos, p8) =~= bytes.subrange(pos, p7) + bytes.subrange(p7, p8));
    assert(bytes.subrange(pos, p9) =~= bytes.subrange(pos, p8) + bytes.subrange(p8, p9));
    assert(bytes.subrange(pos, p10) =~= bytes.subrange(pos, p9) + bytes.subrange(p9, p10));
    assert(bytes.subrange(pos, p10) =~= spec_encode_task(tvw));
}

/// In a fitting task record, the fields after the description sit at their
/// offsets.
proof fn lemma_task_tail(bytes: Seq<u8>, pos: int, tv: TaskView)
    requires
        task_fits(bytes, pos, tv),
    ensures
        bytes.subrange(off_count(tv, pos), off_tags(tv, pos)) == le64(tv.tags.len() as u64),
        strs_fit(bytes, off_tags(tv, pos), tv.tags),
        bytes[off_status(tv, pos)] == status_byte(tv.status),
        bytes.subrange(off_status(tv, pos) + 1, off_status(tv, pos) + 9)
            == le64(tv.created_at as u64),
        bytes.subrange(off_status(tv, pos) + 9, off_status(tv, pos) + 17)
            == le64(tv.updated_at as u64),
        off_status(tv, pos) + 17 == pos + spec_encode_task(tv).len() <= bytes.len(),
{
    lemma_task_decompose(bytes, pos, tv);
}

/// The view of an optional string.
pub open spec fn opt_str_view(o: Option<String>) -> Option<Seq<char>> {
    match o {
        Some(s) => Some(s@),
        None => None,
    }
}

/// Read a task record's identifier, title and description at `pos`.
#[verifier::rlimit(100)]
#[verifier::spinoff_prover]
fn read_task_head(bytes: &[u8], pos: usize) -> (r: Option<(u128, String, Option<String>, usize)>)
    requires
        pos <= bytes@.len(),
    ensures
        r matches Some(p) ==> pos + 17 <= p.3 <= bytes@.len()
            && bytes@.subrange(pos as int, p.3 as int)
                == le128(p.0) + spec_encode_str(p.1@) + desc_enc(opt_str_view(p.2)),
        forall|tv: TaskView| #[trigger] task_fits(bytes@, pos as int, tv)
            ==> (r matches Some(p) && p.0 == tv.id && p.1@ == tv.title
                && opt_str_view(p.2) == tv.description && p.3 == off_count(tv, pos as int)),
{
    let (lo, p1) = match read_u64(bytes, pos) {
        Some(x) => x,
        None => {
            proof {
                assert forall|tv: TaskView| !task_fits(bytes@, pos as int, tv) by {
                    if task_fits(bytes@, pos as int, tv) {
                        lemma_task_fit_len(bytes@, pos as int, tv);
                    }
                }
            }
            return None;
        },
    };
    let (hi, p2) = match read_u64(bytes, p1) {
        Some(x) => x,
        None => {
            proof {
                assert forall|tv: TaskView| !task_fits(bytes@, pos as int, tv) by {
                    if task_fits(bytes@, pos as int, tv) {
                        lemma_task_fit_len(bytes@, pos as int, tv);
                    }
                }
            }
            return None;
        },
    };
    let id: u128 = (lo as u128) | ((hi as u128) << 64);
    let (title, p3) = match read_str(bytes, p2) {
        Some(x) => x,
        None => {
            proof {
                assert forall|tv: TaskView| !task_fits(bytes@, pos as int, tv) by {
                    if task_fits(bytes@, pos as int, tv) {
                        lemma_task_decompose(bytes@, pos as int, tv);
                    }
                }
            }
            return None;
        },
    };
    let ghost title_view = title@;
    proof {
        assert forall|tv: TaskView| #[trigger] task_fits(bytes@, pos as int, tv)
            implies title_view == tv.title && p3 == off_desc(tv, pos as int)
                && lo == tv.id as u64 && hi == (tv.id >> 64) as u64 && id == tv.id by {
            lemma_task_decompose(bytes@, pos as int, tv);
            lemma_le64_injective(lo, tv.id as u64);
            lemma_le64_injective(hi, (tv.id >> 64) as u64);
            lemma_u128_reassemble(tv.id);
        }
    }
    if p3 >= bytes.len() {
        proof {
            assert forall|tv: TaskView| !task_fits(bytes@, pos as int, tv) by {
                if task_fits(bytes@, pos as int, tv) {
                    lemma_task_fit_len(bytes@, pos as int, tv);
                }
            }
        }
        return None;
    }
    let tag = bytes[p3];
    let p4 = p3 + 1;
    let (description, p5) = if tag == 0 {
        (None, p4)
    } else if tag == 1 {
        match read_str(bytes, p4) {
            Some((d, q)) => (Some(d), q),
            None => {
                proof {
                    assert forall|tv: TaskView| !task_fits(bytes@, pos as int, tv) by {
                        if task_fits(bytes@, pos as int, tv) {
                            lemma_task_decompose(bytes@, pos as int, tv);
                            match tv.description {
                                Some(d) => {
                                    assert(str_fits(bytes@, p4 as int, d));
                                },
                                None => {
                                    assert(bytes@[p3 as int] == 0);
                                },
                            }
                        }
                    }
                }
                return None;
            },
        }
    } else {
        proof {
            assert forall|tv: TaskView| !task_fits(bytes@, pos as int, tv) by {
                if task_fits(bytes@, pos as int, tv) {
                    lemma_task_decompose(bytes@, pos as int, tv);
                }
            }
        }
        return None;
    };
    proof {
        assert(bytes@.subrange(p3 as int, p4 as int) =~= seq![tag]);
        assert(bytes@.subrange(p3 as int, p5 as int)
            =~= desc_enc(opt_str_view(description)));
        assert(bytes@.subrange(pos as int, p2 as int) =~= le64(lo) + le64(hi));
        assert(le64(lo) + le64(hi) == le128(id)) by {
            assert((id as u64) == lo && ((id >> 64) as u64) == hi) by (bit_vector)
                requires
                    id == (lo as u128) | ((hi as u128) << 64),
            ;
        }
        assert(bytes@.subrange(pos as int, p5 as int)
            =~= bytes@.subrange(pos as int, p2 as int) + bytes@.subrange(p2 as int, p3 as int)
                + bytes@.subrange(p3 as int, p5 as int));
        assert forall|tv: TaskView| #[trigger] task_fits(bytes@, pos as int, tv)
            implies opt_str_view(description) == tv.description
                && p5 == off_count(tv, pos as int) by {
            lemma_task_decompose(bytes@, pos as int, tv);
            match tv.description {
                Some(d) => {
                    assert(bytes@[p3 as int] == 1);
                    assert(str_fits(bytes@, p4 as int, d));
                },
                None => {
                    assert(bytes@[p3 as int] == 0);
                },
            }
        }
    }
    Some((id, title, description, p5))
}

/// Read one task record at `pos`: exactly the encodings of tasks are
/// accepted, and each task that fits is what comes back.
#[verifier::rlimit(100)]
#[verifier::spinoff_prover]
fn read_task(bytes: &[u8], pos: usize) -> (r: Option<(Task, usize)>)
    requires
        pos <= bytes@.len(),
    ensures
        r matches Some(p) ==> pos < p.1 <= bytes@.len()
            && bytes@.subrange(pos as int, p.1 as int) == spec_encode_task(p.0@),
        forall|tv: TaskView| #[trigger] task_fits(bytes@, pos as int, tv)
            ==> (r matches Some(p) && p.0@ == tv
                && p.1 == pos + spec_encode_task(tv).len()),
{
    let (id, title, description, p5) = match read_task_head(bytes, pos) {
        Some(x) => x,
        None => {
            return None;
        },
    };
    let ghost title_view = title@;
    let ghost desc_view = opt_str_view(description);
    let (tag_count, p6) = match read_u64(bytes, p5) {
        Some(x) => x,
        None => {
            proof {
                assert forall|tv: TaskView| !task_fits(bytes@, pos as int, tv) by {
                    if task_fits(bytes@, pos as int, tv) {
                        lemma_task_fit_len(bytes@, pos as int, tv);
                    }
                }
            }
            return None;
        },
    };
    let (tags, p7) = match read_strs(bytes, p6, tag_count) {
        Some(x) => x,
        None => {
            proof {
                assert forall|tv: TaskView| !task_fits(bytes@, pos as int, tv) by {
                    if task_fits(bytes@, pos as int, tv) {
                        lemma_task_tail(bytes@, pos as int, tv);
                        lemma_le64_injective(tag_count, tv.tags.len() as u64);
                        lemma_encode_strs_len_lower(tv.tags);
                        assert(vstd::slice::spec_slice_len(bytes) == bytes@.len());
                        assert(8 * tv.tags.len() <= bytes@.len());
                        assert(tv.tags.len() <= u64::MAX);
                        assert(tv.tags.len() == tag_count);
                    }
                }
            }
            return None;
        },
    };
    let ghost tags_view = string_views(tags@);
    proof {
        assert forall|tv: TaskView| #[trigger] task_fits(bytes@, pos as int, tv)
            implies tags_view == tv.tags && p7 == off_status(tv, pos as int) by {
            lemma_task_tail(bytes@, pos as int, tv);
            lemma_le64_injective(tag_count, tv.tags.len() as u64);
            lemma_encode_strs_len_lower(tv.tags);
            assert(vstd::slice::spec_slice_len(bytes) == bytes@.len());
            assert(8 * tv.tags.len() <= bytes@.len());
            assert(tv.tags.len() <= u64::MAX);
            assert(tv.tags.len() == tag_count);
        }
    }
    if p7 >= bytes.len() {
        proof {
            assert forall|tv: TaskView| !task_fits(bytes@, pos as int, tv) by {
                if task_fits(bytes@, pos as int, tv) {
                    lemma_task_fit_len(bytes@, pos as int, tv);
                }
            }
        }
        return None;
    }
    let status = if bytes[p7] == 0 {
        TaskStatus::Todo
    } else if bytes[p7] == 1 {
        TaskStatus::InProgress
    } else if bytes[p7] == 2 {
        TaskStatus::Done
    } else {
        proof {
            assert forall|tv: TaskView| !task_fits(bytes@, pos as int, tv) by {
                if task_fits(bytes@, pos as int, tv) {
                    lemma_task_tail(bytes@, pos as int, tv);
                    match tv.status {
                        TaskStatus::Todo => {},
                        TaskStatus::InProgress => {},
                        TaskStatus::Done => {},
                    }
                }
            }
        }
        return None;
    };
    let p8 = p7 + 1;
    let (created_bits, p9) = match read_u64(bytes, p8) {
        Some(x) => x,
        None => {
            proof {
                assert forall|tv: TaskView| !task_fits(bytes@, pos as int, tv) by {
                    if task_fits(bytes@, pos as int, tv) {
                        lemma_task_fit_len(bytes@, pos as int, tv);
                    }
                }
            }
            return None;
        },
    };
    let (updated_bits, p10) = match read_u64(bytes, p9) {
        Some(x) => x,
        None => {
            proof {
                assert forall|tv: TaskView| !task_fits(bytes@, pos as int, tv) by {
                    if task_fits(bytes@, pos as int, tv) {
                        lemma_task_fit_len(bytes@, pos as int, tv);
                    }
                }
            }
            return None;
        },
    };
    let task = Task {
        id,
        title,
        description,
        tags,
        status,
        created_at: created_bits as i64,
        updated_at: updated_bits as i64,
    };
    proof {
        // The record just read re-encodes to exactly the bytes it came from.
        lemma_u64_i64_roundtrip(created_bits);
        lemma_u64_i64_roundtrip(updated_bits);
        assert(task@.title == title_view);
        assert(task@.description == desc_view);
        assert(task@.tags =~= tags_view);
        assert(tags@.len() == tag_count);
        assert((tags@.len() as u64) == tag_count);
        assert(bytes@.subrange(p7 as int, p8 as int) =~= seq![status_byte(task@.status)]);
        lemma_task_assemble(bytes@, pos as int, p5 as int, p6 as int,
            p7 as int, p8 as int, p9 as int, p10 as int, task@);
        assert forall|tv: TaskView| #[trigger] task_fits(bytes@, pos as int, tv)
            implies task@ == tv && p10 == pos + spec_encode_task(tv).len() by {
            lemma_task_tail(bytes@, pos as int, tv);
            lemma_le64_injective(created_bits, tv.created_at as u64);
            lemma_le64_injective(updated_bits, tv.updated_at as u64);
            lemma_i64_u64_roundtrip(tv.created_at);
            lemma_i64_u64_roundtrip(tv.updated_at);
            match tv.status {
                TaskStatus::Todo => {},
                TaskStatus::InProgress => {},
                TaskStatus::Done => {},
            }
        }
    }
    Some((task, p10))
}

/// A singleton list encodes as its one task.
proof fn lemma_encode_task_singleton(tv: TaskView)
    ensures
        spec_encode_task_list(seq![tv]) == spec_encode_task(tv),
{
    assert(seq![tv].first() == tv);
    assert(seq![tv].drop_first() =~= Seq::<TaskView>::empty());
    assert(spec_encode_task_list(Seq::<TaskView>::empty()) =~= Seq::<u8>::empty());
    assert(spec_encode_task_list(seq![tv]) =~= spec_encode_task(tv));
}

/// In a fitting task list, the task after the first `k` fits right after
/// their encodings.
proof fn lemma_task_list_tail_fit(bytes: Seq<u8>, pos: int, tvs: Seq<TaskView>, k: int)
    requires
        task_list_fits(bytes, pos, tvs),
        0 <= k < tvs.len(),
    ensures
        task_fits(bytes, pos + spec_encode_task_list(tvs.take(k)).len(), tvs[k]),
        pos + spec_encode_task_list(tvs.take(k)).len() + spec_encode_task(tvs[k]).len()
            == pos + spec_encode_task_list(tvs.take(k + 1)).len(),
{
    assert(tvs.take(k + 1) =~= tvs.take(k) + seq![tvs[k]]);
    lemma_encode_task_list_concat(tvs.take(k), seq![tvs[k]]);
    lemma_encode_task_singleton(tvs[k]);
    assert(tvs =~= tvs.take(k + 1) + tvs.skip(k + 1));
    lemma_encode_task_list_concat(tvs.take(k + 1), tvs.skip(k + 1));
    lemma_subrange_cat(bytes, pos, spec_encode_task_list(tvs.take(k + 1)),
        spec_encode_task_list(tvs.skip(k + 1)));
    lemma_subrange_cat(bytes, pos, spec_encode_task_list(tvs.take(k)),
        spec_encode_task(tvs[k]));
}

/// A task list's encoding is at least one byte per task.
proof fn lemma_encode_task_list_len_lower(tvs: Seq<TaskView>)
    ensures
        spec_encode_task_list(tvs).len() >= tvs.len(),
    decreases tvs.len(),
{
    if tvs.len() > 0 {
        lemma_encode_task_list_len_lower(tvs.drop_first());
    }
}

/// Read `count` task records at `pos`: exactly the encodings of task lists
/// are accepted, and each list that fits is what comes back.
#[verifier::rlimit(100)]
#[verifier::spinoff_prover]
fn read_task_list(bytes: &[u8], pos: usize, count: u64) -> (r: Option<(Vec<Task>, usize)>)
    requires
        pos <= bytes@.len(),
    ensures
        r matches Some(p) ==> pos <= p.1 <= bytes@.len()
            && bytes@.subrange(pos as int, p.1 as int)
                == spec_encode_task_list(views_of(p.0@))
            && p.0@.len() == count,
        forall|tvs: Seq<TaskView>|
            (tvs.len() == count && #[trigger] task_list_fits(bytes@, pos as int, tvs))
            ==> (r matches Some(p) && views_of(p.0@) == tvs
                && p.1 == pos + spec_encode_task_list(tvs).len()),
{
    let mut items: Vec<Task> = Vec::new();
    let mut cur: usize = pos;
    let mut k: u64 = 0;
    proof {
        assert(views_of(items@) =~= Seq::<TaskView>::empty());
        assert(bytes@.subrange(pos as int, pos as int)
            =~= spec_encode_task_list(views_of(items@)));
    }
    while k < count
        invariant
            pos <= cur <= bytes@.len(),
            k <= count,
            items@.len() == k,
            bytes@.subrange(pos as int, cur as int) == spec_encode_task_list(views_of(items@)),
            forall|tvs: Seq<TaskView>|
                (tvs.len() == count && #[trigger] task_list_fits(bytes@, pos as int, tvs))
                ==> views_of(items@) == tvs.take(k as int)
                    && cur == pos + spec_encode_task_list(tvs.take(k as int)).len(),
        decreases count - k,
    {
        proof {
            assert forall|tvs: Seq<TaskView>|
                (tvs.len() == count && #[trigger] task_list_fits(bytes@, pos as int, tvs))
                implies task_fits(bytes@, cur as int, tvs[k as int]) by {
                lemma_task_list_tail_fit(bytes@, pos as int, tvs, k as int);
            }
        }
        let (t, q) = match read_task(bytes, cur) {
            Some(x) => x,
            None => {
                return None;
            },
        };
        let ghost t_view = t@;
        let ghost items0 = items@;
        let ghost cur0 = cur;
        items.push(t);
        cur = q;
        k = k + 1;
        proof {
            assert(views_of(items@) =~= views_of(items0) + seq![t_view]);
            lemma_encode_task_list_concat(views_of(items0), seq![t_view]);
            lemma_encode_task_singleton(t_view);
            assert(bytes@.subrange(cur0 as int, cur as int) == spec_encode_task(t_view));
            assert(bytes@.subrange(pos as int, cur as int)
                =~= bytes@.subrange(pos as int, cur0 as int)
                    + bytes@.subrange(cur0 as int, cur as int));
            assert(bytes@.subrange(pos as int, cur as int)
                =~= spec_encode_task_list(views_of(items@)));
            assert forall|tvs: Seq<TaskView>|
                (tvs.len() == count && #[trigger] task_list_fits(bytes@, pos as int, tvs))
                implies views_of(items@) == tvs.take(k as int)
                    && cur == pos + spec_encode_task_list(tvs.take(k as int)).len() by {
                lemma_task_list_tail_fit(bytes@, pos as int, tvs, k as int - 1);
                assert(t_view == tvs[k as int - 1]);
                assert(tvs.take(k as int) =~= tvs.take(k as int - 1) + seq![tvs[k as int - 1]]);
                lemma_encode_task_list_concat(tvs.take(k as int - 1), seq![tvs[k as int - 1]]);
                lemma_encode_task_singleton(tvs[k as int - 1]);
                assert(views_of(items@) =~= tvs.take(k as int));
            }
        }
    }
    proof {
        assert forall|tvs: Seq<TaskView>|
            (tvs.len() == count && #[trigger] task_list_fits(bytes@, pos as int, tvs))
            implies views_of(items@) == tvs
                && cur == pos + spec_encode_task_list(tvs).len() by {
            assert(tvs.take(k as int) =~= tvs);
        }
    }
    Some((items, cur))
}

/// Deserialize a document: exactly the canonical encodings are accepted,
/// and the collection a document encodes is what comes back; a decoded
/// collection re-serializes to exactly the input bytes.
pub fn decode_tasks(bytes: &[u8]) -> (r: Option<Vec<Task>>)
    ensures
        r matches Some(ts) ==> bytes@ == spec_encode_tasks(views_of(ts@)),
        forall|tvs: Seq<TaskView>| bytes@ == #[trigger] spec_encode_tasks(tvs)
            ==> (r matches Some(ts) && views_of(ts@) == tvs),
{
    proof {
        assert forall|tvs: Seq<TaskView>| bytes@ == #[trigger] spec_encode_tasks(tvs)
            implies {
                &&& bytes@.subrange(0, 8) == le64(tvs.len() as u64)
                &&& task_list_fits(bytes@, 8, tvs)
                &&& tvs.len() <= u64::MAX
                &&& bytes@.len() == 8 + spec_encode_task_list(tvs).len()
            } by {
            assert(bytes@.subrange(0, bytes@.len() as int) =~= bytes@);
            lemma_subrange_cat(bytes@, 0, le64(tvs.len() as u64),
                spec_encode_task_list(tvs));
            lemma_encode_task_list_len_lower(tvs);
            assert(vstd::slice::spec_slice_len(bytes) == bytes@.len());
        }
    }
    let (count, pos) = match read_u64(bytes, 0) {
        Some(x) => x,
        None => {
            return None;
        },
    };
    let (tasks, end) = match read_task_list(bytes, pos, count) {
        Some(x) => x,
        None => {
            proof {
                assert forall|tvs: Seq<TaskView>| bytes@ != #[trigger] spec_encode_tasks(tvs) by {
                    if bytes@ == spec_encode_tasks(tvs) {
                        lemma_le64_injective(count, tvs.len() as u64);
                        assert(tvs.len() == count);
                    }
                }
            }
            return None;
        },
    };
    if end != bytes.len() {
        proof {
            assert forall|tvs: Seq<TaskView>| bytes@ != #[trigger] spec_encode_tasks(tvs) by {
                if bytes@ == spec_encode_tasks(tvs) {
                    lemma_le64_injective(count, tvs.len() as u64);
                    assert(tvs.len() == count);
                }
            }
        }
        return None;
    }
    proof {
        assert(bytes@.subrange(0, bytes@.len() as int) =~= bytes@);
        assert(bytes@ =~= bytes@.subrange(0, 8) + bytes@.subrange(8, bytes@.len() as int));
        assert((tasks@.len() as u64) == count);
        assert(bytes@ == spec_encode_tasks(views_of(tasks@)));
        assert forall|tvs: Seq<TaskView>| bytes@ == #[trigger] spec_encode_tasks(tvs)
            implies views_of(tasks@) == tvs by {
            lemma_le64_injective(count, tvs.len() as u64);
            assert(tvs.len() == count);
        }
    }
    Some(tasks)
}

} // verus!
