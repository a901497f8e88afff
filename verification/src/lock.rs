//! The lock writer: renders resolved records into the canonical lock
//! document.  Internal storage has no reliable order, so the writer first
//! imposes a total order on the records — lexicographic by name, then rev,
//! then the remaining fields — making the output bytes a function of the
//! record set alone.
use crate::bytes::{bytes_eq, bytes_le, clone_bytes, lemma_lex_antisym, lemma_lex_connected,
    lemma_lex_trans, lex_leq, views};
use crate::registry::{esc, kw_name, kw_repository_url, kw_rev, kw_version, records_view,
    write_escaped, RecordView, ResolvedDependency};
use vstd::prelude::*;
use vstd::relations::total_ordering;
use vstd::relations::sorted_by;
use vstd::seq_lib::lemma_sorted_unique;

verus! {

/// The five fields of a record, in the order the lock writer compares them.
pub open spec fn rkeys(r: RecordView) -> Seq<Seq<u8>> {
    seq![r.name, r.rev, r.version, r.repository_url, r.scheme]
}

/// Lexicographic order on sequences of byte strings: the first differing
/// component decides.
pub open spec fn vec_lex_leq(a: Seq<Seq<u8>>, b: Seq<Seq<u8>>) -> bool
    decreases a.len(),
{
    if a.len() == 0 {
        true
    } else if b.len() == 0 {
        false
    } else if a[0] != b[0] {
        lex_leq(a[0], b[0])
    } else {
        vec_lex_leq(a.drop_first(), b.drop_first())
    }
}

proof fn lemma_vec_lex_refl(a: Seq<Seq<u8>>)
    ensures
        vec_lex_leq(a, a),
    decreases a.len(),
{
    if a.len() > 0 {
        lemma_vec_lex_refl(a.drop_first());
    }
}

proof fn lemma_vec_lex_antisym(a: Seq<Seq<u8>>, b: Seq<Seq<u8>>)
    requires
        vec_lex_leq(a, b),
        vec_lex_leq(b, a),
    ensures
        a == b,
    decreases a.len(),
{
    if a.len() == 0 {
        assert(b.len() == 0);
        assert(a =~= b);
    } else {
        assert(b.len() > 0);
        if a[0] != b[0] {
            assert(lex_leq(a[0], b[0]));
            assert(lex_leq(b[0], a[0]));
            lemma_lex_antisym(a[0], b[0]);
            assert(false);
        }
        assert(a[0] == b[0]);
        assert(vec_lex_leq(a.drop_first(), b.drop_first()));
        assert(vec_lex_leq(b.drop_first(), a.drop_first()));
        lemma_vec_lex_antisym(a.drop_first(), b.drop_first());
        assert(a.drop_first() == b.drop_first());
        assert(a.len() == b.len());
        assert forall|i: int| 0 <= i < a.len() implies a[i] == b[i] by {
            if i > 0 {
                assert(a[i] == a.drop_first()[i - 1]);
                assert(b[i] == b.drop_first()[i - 1]);
            }
        }
        assert(a =~= b);
    }
}

proof fn lemma_vec_lex_trans(a: Seq<Seq<u8>>, b: Seq<Seq<u8>>, c: Seq<Seq<u8>>)
    requires
        vec_lex_leq(a, b),
        vec_lex_leq(b, c),
    ensures
        vec_lex_leq(a, c),
    decreases a.len(),
{
    if a.len() == 0 || b.len() == 0 || c.len() == 0 {
    } else {
        if a[0] == b[0] && b[0] == c[0] {
            lemma_vec_lex_trans(a.drop_first(), b.drop_first(), c.drop_first());
        } else if a[0] == b[0] {
            // the first components of b and c decide both comparisons
        } else if b[0] == c[0] {
        } else {
            lemma_lex_trans(a[0], b[0], c[0]);
            if a[0] == c[0] {
                lemma_lex_antisym(a[0], b[0]);
            }
        }
    }
}

proof fn lemma_vec_lex_connected(a: Seq<Seq<u8>>, b: Seq<Seq<u8>>)
    ensures
        vec_lex_leq(a, b) || vec_lex_leq(b, a),
    decreases a.len(),
{
    if a.len() > 0 && b.len() > 0 {
        if a[0] == b[0] {
            lemma_vec_lex_connected(a.drop_first(), b.drop_first());
        } else {
            lemma_lex_connected(a[0], b[0]);
        }
    }
}

/// The total order on resolved records: lexicographic by name, then rev,
/// then version, then repository URL, then scheme.
pub open spec fn record_leq(a: RecordView, b: RecordView) -> bool {
    vec_lex_leq(rkeys(a), rkeys(b))
}

pub open spec fn record_order() -> spec_fn(RecordView, RecordView) -> bool {
    |a: RecordView, b: RecordView| record_leq(a, b)
}

/// The lock writer's order is a total ordering, so sorting by it puts any
/// two permutations of one record set into the same sequence.
pub proof fn lemma_record_order_total()
    ensures
        total_ordering(record_order()),
{
    let leq = record_order();
    assert forall|x: RecordView| #[trigger] leq(x, x) by {
        lemma_vec_lex_refl(rkeys(x));
    }
    assert forall|x: RecordView, y: RecordView| #[trigger] leq(x, y) && #[trigger] leq(y, x)
        implies x == y by {
        lemma_vec_lex_antisym(rkeys(x), rkeys(y));
        assert(rkeys(x)[0] == rkeys(y)[0]);
        assert(rkeys(x)[1] == rkeys(y)[1]);
        assert(rkeys(x)[2] == rkeys(y)[2]);
        assert(rkeys(x)[3] == rkeys(y)[3]);
        assert(rkeys(x)[4] == rkeys(y)[4]);
        assert(x =~= y);
    }
    assert forall|x: RecordView, y: RecordView, z: RecordView|
        #[trigger] leq(x, y) && #[trigger] leq(y, z) implies leq(x, z) by {
        lemma_vec_lex_trans(rkeys(x), rkeys(y), rkeys(z));
    }
    assert forall|x: RecordView, y: RecordView| #[trigger] leq(x, y) || #[trigger] leq(y, x) by {
        lemma_vec_lex_connected(rkeys(x), rkeys(y));
    }
}

fn vecs_le(a: &[Vec<u8>], b: &[Vec<u8>]) -> (r: bool)
    ensures
        r == vec_lex_leq(views(a@), views(b@)),
    decreases a@.len(),
{
    if a.len() == 0 {
        true
    } else if b.len() == 0 {
        false
    } else if !bytes_eq(a[0].as_slice(), b[0].as_slice()) {
        proof {
            assert(views(a@)[0] == a@[0]@ && views(b@)[0] == b@[0]@);
        }
        bytes_le(a[0].as_slice(), b[0].as_slice())
    } else {
        let r = vecs_le(
            vstd::slice::slice_subrange(a, 1, a.len()),
            vstd::slice::slice_subrange(b, 1, b.len()),
        );
        proof {
            assert(views(a@.subrange(1, a@.len() as int)) =~~= views(a@).drop_first());
            assert(views(b@.subrange(1, b@.len() as int)) =~~= views(b@).drop_first());
            assert(views(a@)[0] == a@[0]@ && views(b@)[0] == b@[0]@);
        }
        r
    }
}

fn keys_of(r: &ResolvedDependency) -> (k: Vec<Vec<u8>>)
    ensures
        views(k@) == rkeys(r@),
{
    let mut k: Vec<Vec<u8>> = Vec::new();
    k.push(clone_bytes(&r.name));
    k.push(clone_bytes(&r.rev));
    k.push(clone_bytes(&r.version));
    k.push(clone_bytes(&r.repository_url));
    k.push(clone_bytes(&r.scheme));
    proof {
        assert(views(k@) =~~= rkeys(r@));
    }
    k
}

fn record_le(a: &ResolvedDependency, b: &ResolvedDependency) -> (r: bool)
    ensures
        r == record_leq(a@, b@),
{
    let ka = keys_of(a);
    let kb = keys_of(b);
    vecs_le(ka.as_slice(), kb.as_slice())
}

fn clone_record(d: &ResolvedDependency) -> (r: ResolvedDependency)
    ensures
        r@ == d@,
{
    ResolvedDependency {
        name: clone_bytes(&d.name),
        version: clone_bytes(&d.version),
        repository_url: clone_bytes(&d.repository_url),
        rev: clone_bytes(&d.rev),
        scheme: clone_bytes(&d.scheme),
    }
}

/// Sorts the records by the lock writer's total order; the result holds
/// exactly the input records.
fn sort_records(input: &Vec<ResolvedDependency>) -> (r: Vec<ResolvedDependency>)
    ensures
        sorted_by(records_view(r@), record_order()),
        records_view(r@).to_multiset() == records_view(input@).to_multiset(),
{
    broadcast use vstd::seq_lib::group_to_multiset_ensures;
    broadcast use vstd::multiset::group_multiset_axioms;

    let ghost iv = records_view(input@);
    let mut out: Vec<ResolvedDependency> = Vec::new();
    let mut i: usize = 0;
    proof {
        lemma_record_order_total();
        assert(iv.take(0) =~= Seq::<RecordView>::empty());
        assert(records_view(out@) =~= Seq::<RecordView>::empty());
        assert(records_view(out@).to_multiset() =~= iv.take(0).to_multiset());
    }
    while i < input.len()
        invariant
            0 <= i <= input@.len(),
            iv == records_view(input@),
            total_ordering(record_order()),
            sorted_by(records_view(out@), record_order()),
            records_view(out@).to_multiset() == iv.take(i as int).to_multiset(),
        decreases input@.len() - i,
    {
        broadcast use vstd::seq_lib::group_to_multiset_ensures;
        broadcast use vstd::multiset::group_multiset_axioms;

        let rec = clone_record(&input[i]);
        let ghost s = records_view(out@);
        let ghost x = iv[i as int];
        let mut j: usize = 0;
        while j < out.len() && !record_le(&rec, &out[j])
            invariant
                0 <= j <= out@.len(),
                s == records_view(out@),
                iv == records_view(input@),
                0 <= i < iv.len(),
                rec@ == x,
                x == iv[i as int],
                forall|m: int| 0 <= m < j ==> !record_leq(x, (#[trigger] s[m])),
            decreases out@.len() - j,
        {
            j = j + 1;
        }
        let ghost pos = j as int;
        proof {
            assert(pos < s.len() ==> record_leq(x, s[pos]));
        }
        out.insert(j, rec);
        proof {
            let s2 = records_view(out@);
            assert(s2 =~~= s.insert(pos, x));
            assert(forall|k: int| 0 <= k < pos ==> s.insert(pos, x)[k] == s[k]);
            assert(s.insert(pos, x)[pos] == x);
            assert(forall|k: int| pos < k < s.len() + 1 ==> s.insert(pos, x)[k] == s[k - 1]);
            // the new sequence is still sorted
            assert forall|m: int, n: int| 0 <= m < n < s2.len() implies #[trigger] record_order()(
                s2[m],
                s2[n],
            ) by {
                if n < pos {
                    assert(s2[m] == s[m] && s2[n] == s[n]);
                    assert(record_order()(s[m], s[n]));
                } else if m < pos && n == pos {
                    assert(s2[m] == s[m] && s2[n] == x);
                    assert(!record_leq(x, s[m]));
                    assert(record_order()(s[m], x) || record_order()(x, s[m]));
                } else if m < pos && n > pos {
                    assert(s2[m] == s[m] && s2[n] == s[n - 1]);
                    if m < n - 1 {
                        assert(record_order()(s[m], s[n - 1]));
                    } else {
                        assert(s2[m] == s2[n]);
                        assert(record_order()(s[m], s[m]));
                    }
                } else if m == pos {
                    assert(s2[m] == x && s2[n] == s[n - 1]);
                    assert(record_leq(x, s[pos]));
                    assert(record_order()(x, s[pos]));
                    if n - 1 > pos {
                        assert(record_order()(s[pos], s[n - 1]));
                        assert(record_order()(x, s[n - 1]));
                    }
                } else {
                    assert(s2[m] == s[m - 1] && s2[n] == s[n - 1]);
                    assert(record_order()(s[m - 1], s[n - 1]));
                }
            }
            // the new sequence holds exactly one more copy of the record
            assert(s2.remove(pos) =~~= s);
            assert(s2.remove(pos).to_multiset() =~= s2.to_multiset().remove(s2[pos]));
            assert(s2[pos] == x);
            assert(s2.contains(x));
            assert(s2.to_multiset().count(x) > 0);
            assert(s2.to_multiset() =~= s.to_multiset().insert(x));
            assert(iv.take(i as int + 1) =~= iv.take(i as int).push(x));
        }
        i = i + 1;
    }
    proof {
        assert(iv.take(iv.len() as int) =~= iv);
    }
    out
}

/// One lock line, `key = "value"` and a newline.
pub open spec fn render_line(key: Seq<u8>, value: Seq<u8>) -> Seq<u8> {
    key + seq![32u8, 61, 32, 34] + esc(value) + seq![34u8, 10]
}

/// The bytes of `[[package]]` and a newline.
pub open spec fn block_header() -> Seq<u8> {
    seq![91u8, 91, 112, 97, 99, 107, 97, 103, 101, 93, 93, 10]
}

/// One `[[package]]` block: exactly the four public fields, in fixed order;
/// the record's `scheme` field is resolver-internal and does not appear.
pub open spec fn render_block(r: RecordView) -> Seq<u8> {
    block_header() + render_line(kw_name(), r.name) + render_line(kw_version(), r.version)
        + render_line(kw_repository_url(), r.repository_url) + render_line(kw_rev(), r.rev)
}

/// The blocks of a record sequence, one per record, blank lines between.
pub open spec fn render_seq(rs: Seq<RecordView>) -> Seq<u8>
    decreases rs.len(),
{
    if rs.len() == 0 {
        Seq::<u8>::empty()
    } else if rs.len() == 1 {
        render_block(rs[0])
    } else {
        render_block(rs[0]) + seq![10u8] + render_seq(rs.drop_first())
    }
}

pub proof fn lemma_render_seq_snoc(rs: Seq<RecordView>, r: RecordView)
    ensures
        render_seq(rs.push(r)) == if rs.len() == 0 {
            render_block(r)
        } else {
            render_seq(rs) + seq![10u8] + render_block(r)
        },
    decreases rs.len(),
{
    if rs.len() == 0 {
        assert(rs.push(r)[0] == r);
        assert(render_seq(rs.push(r)) =~= render_block(r));
    } else {
        assert(rs.push(r).drop_first() =~= rs.drop_first().push(r));
        lemma_render_seq_snoc(rs.drop_first(), r);
        assert(render_seq(rs.push(r)) =~= render_seq(rs) + seq![10u8] + render_block(r));
    }
}

/// The canonical lock document of a record set: the records in the lock
/// writer's total order, rendered one block each.
pub open spec fn render_lock_spec(rs: Seq<RecordView>) -> Seq<u8> {
    render_seq(rs.sort_by(record_order()))
}

/// Reproducibility: the lock bytes are a function of the record multiset
/// alone — two resolutions that produce the same records in any internal
/// order serialize to byte-identical documents.
pub proof fn lemma_lock_deterministic(a: Seq<RecordView>, b: Seq<RecordView>)
    requires
        a.to_multiset() == b.to_multiset(),
    ensures
        render_lock_spec(a) == render_lock_spec(b),
{
    lemma_record_order_total();
    a.lemma_sort_by_ensures(record_order());
    b.lemma_sort_by_ensures(record_order());
    lemma_sorted_unique(a.sort_by(record_order()), b.sort_by(record_order()), record_order());
    assert(a.sort_by(record_order()) == b.sort_by(record_order()));
}

fn write_line_key(out: &mut Vec<u8>, which: u8)
    requires
        which < 4,
    ensures
        final(out)@ == old(out)@ + (if which == 0 {
            kw_name()
        } else if which == 1 {
            kw_version()
        } else if which == 2 {
            kw_repository_url()
        } else {
            kw_rev()
        }),
{
    let ghost base = out@;
    if which == 0 {
        out.push(110);
        out.push(97);
        out.push(109);
        out.push(101);
        proof {
            assert(out@ =~= base + kw_name());
        }
    } else if which == 1 {
        out.push(118);
        out.push(101);
        out.push(114);
        out.push(115);
        out.push(105);
        out.push(111);
        out.push(110);
        proof {
            assert(out@ =~= base + kw_version());
        }
    } else if which == 2 {
        out.push(114);
        out.push(101);
        out.push(112);
        out.push(111);
        out.push(115);
        out.push(105);
        out.push(116);
        out.push(111);
        out.push(114);
        out.push(121);
        out.push(95);
        out.push(117);
        out.push(114);
        out.push(108);
        proof {
            assert(out@ =~= base + kw_repository_url());
        }
    } else {
        out.push(114);
        out.push(101);
        out.push(118);
        proof {
            assert(out@ =~= base + kw_rev());
        }
    }
}

fn write_line(out: &mut Vec<u8>, which: u8, value: &[u8])
    requires
        which < 4,
    ensures
        final(out)@ == old(out)@ + render_line(
            if which == 0 {
                kw_name()
            } else if which == 1 {
                kw_version()
            } else if which == 2 {
                kw_repository_url()
            } else {
                kw_rev()
            },
            value@,
        ),
{
    let ghost base = out@;
    write_line_key(out, which);
    out.push(32);
    out.push(61);
    out.push(32);
    out.push(34);
    write_escaped(out, value);
    out.push(34);
    out.push(10);
    proof {
        assert(out@ =~= base + render_line(
            if which == 0 {
                kw_name()
            } else if which == 1 {
                kw_version()
            } else if which == 2 {
                kw_repository_url()
            } else {
                kw_rev()
            },
            value@,
        ));
    }
}

fn write_block(out: &mut Vec<u8>, r: &ResolvedDependency)
    ensures
        final(out)@ == old(out)@ + render_block(r@),
{
    let ghost base = out@;
    out.push(91);
    out.push(91);
    out.push(112);
    out.push(97);
    out.push(99);
    out.push(107);
    out.push(97);
    out.push(103);
    out.push(101);
    out.push(93);
    out.push(93);
    out.push(10);
    proof {
        assert(out@ =~= base + block_header());
    }
    write_line(out, 0, r.name.as_slice());
    write_line(out, 1, r.version.as_slice());
    write_line(out, 2, r.repository_url.as_slice());
    write_line(out, 3, r.rev.as_slice());
    proof {
        assert(out@ =~= base + render_block(r@));
    }
}

/// Renders the resolved records into the canonical lock document: the
/// records in the lock writer's total order, one `[[package]]` block each,
/// independent of the order the records arrived in.
pub fn render_lock(records: &Vec<ResolvedDependency>) -> (r: Vec<u8>)
    ensures
        r@ == render_lock_spec(records_view(records@)),
{
    let sorted = sort_records(records);
    let ghost sv = records_view(sorted@);
    let mut out: Vec<u8> = Vec::new();
    let mut i: usize = 0;
    proof {
        assert(sv.take(0) =~= Seq::<RecordView>::empty());
        assert(out@ =~= render_seq(sv.take(0)));
    }
    while i < sorted.len()
        invariant
            0 <= i <= sorted@.len(),
            sv == records_view(sorted@),
            out@ == render_seq(sv.take(i as int)),
        decreases sorted@.len() - i,
    {
        if i > 0 {
            out.push(10);
        }
        write_block(&mut out, &sorted[i]);
        proof {
            assert(sv.take(i as int + 1) =~= sv.take(i as int).push(sv[i as int]));
            lemma_render_seq_snoc(sv.take(i as int), sv[i as int]);
            assert(out@ =~= render_seq(sv.take(i as int + 1)));
        }
        i = i + 1;
    }
    proof {
        assert(sv.take(sv.len() as int) =~= sv);
        lemma_record_order_total();
        records_view(records@).lemma_sort_by_ensures(record_order());
        lemma_sorted_unique(
            sv,
            records_view(records@).sort_by(record_order()),
            record_order(),
        );
        assert(sv == records_view(records@).sort_by(record_order()));
    }
    out
}

} // verus!
