//! The registry side of the pipeline: building the batched resolution
//! request, decoding the registry's response into resolved records, and the
//! round-trip check that every requested scheme came back.
//!
//! The request body is the JSON document `{"schemes":[...]}` holding the
//! scheme values only; the response is a JSON object keyed by scheme
//! identifier whose members are records of string fields.  The decoder reads
//! a subset of JSON: objects of string-keyed members whose values are
//! strings without escape sequences, nested at most one level.
use crate::bytes::{
    bytes_eq, clone_bytes, lemma_scan_str_len, scan_str, scan_str_spec, views,
};
use crate::manifest::{
    decls_view, entries_view, DeclView, DependencyDeclaration, EntryView, SchemeValue, SchemeView,
    TableEntry,
};
use vstd::prelude::*;

verus! {

/// One authoritative record returned by the registry, keyed by its own
/// `scheme` field.
pub struct ResolvedDependency {
    pub name: Vec<u8>,
    pub version: Vec<u8>,
    pub repository_url: Vec<u8>,
    pub rev: Vec<u8>,
    pub scheme: Vec<u8>,
}

#[verifier::ext_equal]
pub struct RecordView {
    pub name: Seq<u8>,
    pub version: Seq<u8>,
    pub repository_url: Seq<u8>,
    pub rev: Seq<u8>,
    pub scheme: Seq<u8>,
}

impl View for ResolvedDependency {
    type V = RecordView;

    open spec fn view(&self) -> RecordView {
        RecordView {
            name: self.name@,
            version: self.version@,
            repository_url: self.repository_url@,
            rev: self.rev@,
            scheme: self.scheme@,
        }
    }
}

pub open spec fn records_view(s: Seq<ResolvedDependency>) -> Seq<RecordView> {
    s.map_values(|r: ResolvedDependency| r@)
}

/// Why resolution fails: every transport or response-shape failure collapses
/// to one opaque outward error.
#[derive(Clone, Copy, Debug, PartialEq, Eq, Structural)]
pub enum ResolveError {
    Unexpected,
}

impl ResolveError {
    pub fn message(&self) -> (r: &'static str)
        ensures
            r@ == "An unexpected error occurred. Please try again later"@,
    {
        "An unexpected error occurred. Please try again later"
    }
}

/// How one byte is written inside a quoted string: quote, backslash, newline,
/// carriage return and tab are escaped, every other byte stands as itself.
pub open spec fn esc_byte(b: u8) -> Seq<u8> {
    if b == 34 {
        seq![92u8, 34]
    } else if b == 92 {
        seq![92u8, 92]
    } else if b == 10 {
        seq![92u8, 110]
    } else if b == 13 {
        seq![92u8, 114]
    } else if b == 9 {
        seq![92u8, 116]
    } else {
        seq![b]
    }
}

pub open spec fn esc(s: Seq<u8>) -> Seq<u8>
    decreases s.len(),
{
    if s.len() == 0 {
        Seq::<u8>::empty()
    } else {
        esc_byte(s[0]) + esc(s.drop_first())
    }
}

pub proof fn lemma_esc_snoc(s: Seq<u8>, b: u8)
    ensures
        esc(s.push(b)) == esc(s) + esc_byte(b),
    decreases s.len(),
{
    if s.len() == 0 {
        assert(s.push(b)[0] == b);
        assert(s.push(b).drop_first() =~= Seq::<u8>::empty());
        assert(esc(s.push(b)) == esc_byte(b) + esc(Seq::<u8>::empty()));
        assert(esc(s.push(b)) =~= esc(s) + esc_byte(b));
    } else {
        assert(s.push(b).drop_first() =~= s.drop_first().push(b));
        lemma_esc_snoc(s.drop_first(), b);
        assert(esc(s.push(b)) =~= esc(s) + esc_byte(b));
    }
}

/// A quoted string: the escaped bytes between two quotes.
pub open spec fn jstr(s: Seq<u8>) -> Seq<u8> {
    seq![34u8] + esc(s) + seq![34u8]
}

/// One structured-table field as a JSON member, `"key":"value"`.
pub open spec fn jentry(e: EntryView) -> Seq<u8> {
    jstr(e.key) + seq![58u8] + jstr(e.value)
}

/// Comma-separated members of a structured scheme.
pub open spec fn jentries(es: Seq<EntryView>) -> Seq<u8>
    decreases es.len(),
{
    if es.len() == 0 {
        Seq::<u8>::empty()
    } else if es.len() == 1 {
        jentry(es[0])
    } else {
        jentry(es[0]) + seq![44u8] + jentries(es.drop_first())
    }
}

pub proof fn lemma_jentries_snoc(es: Seq<EntryView>, e: EntryView)
    ensures
        jentries(es.push(e)) == if es.len() == 0 {
            jentry(e)
        } else {
            jentries(es) + seq![44u8] + jentries(seq![e])
        },
    decreases es.len(),
{
    if es.len() == 0 {
        assert(es.push(e)[0] == e);
        assert(jentries(es.push(e)) =~= jentry(e));
    } else {
        assert(es.push(e).drop_first() =~= es.drop_first().push(e));
        lemma_jentries_snoc(es.drop_first(), e);
        if es.len() == 1 {
            assert(jentries(es.push(e)) =~= jentries(es) + seq![44u8] + jentries(seq![e]));
        } else {
            assert(jentries(es.push(e)) =~= jentries(es) + seq![44u8] + jentries(seq![e]));
        }
    }
}

/// One scheme value in the batch: a quoted string, or an object carrying the
/// structured table's fields unreinterpreted.
pub open spec fn jscheme(v: SchemeView) -> Seq<u8> {
    match v {
        SchemeView::Plain(s) => jstr(s),
        SchemeView::Structured(es) => seq![123u8] + jentries(es) + seq![125u8],
    }
}

/// The comma-separated batch of scheme values, in mapping order.
pub open spec fn jschemes(ds: Seq<DeclView>) -> Seq<u8>
    decreases ds.len(),
{
    if ds.len() == 0 {
        Seq::<u8>::empty()
    } else if ds.len() == 1 {
        jscheme(ds[0].scheme)
    } else {
        jscheme(ds[0].scheme) + seq![44u8] + jschemes(ds.drop_first())
    }
}

pub proof fn lemma_jschemes_snoc(ds: Seq<DeclView>, d: DeclView)
    ensures
        jschemes(ds.push(d)) == if ds.len() == 0 {
            jscheme(d.scheme)
        } else {
            jschemes(ds) + seq![44u8] + jschemes(seq![d])
        },
    decreases ds.len(),
{
    if ds.len() == 0 {
        assert(ds.push(d)[0] == d);
        assert(jschemes(ds.push(d)) =~= jscheme(d.scheme));
    } else {
        assert(ds.push(d).drop_first() =~= ds.drop_first().push(d));
        lemma_jschemes_snoc(ds.drop_first(), d);
        assert(jschemes(ds.push(d)) =~= jschemes(ds) + seq![44u8] + jschemes(seq![d]));
    }
}

/// The bytes of `{"schemes":[`.
pub open spec fn request_prefix() -> Seq<u8> {
    seq![123u8, 34, 115, 99, 104, 101, 109, 101, 115, 34, 58, 91]
}

/// The whole batched request body, `{"schemes":[...]}`.
pub open spec fn render_request_spec(ds: Seq<DeclView>) -> Seq<u8> {
    request_prefix() + jschemes(ds) + seq![93u8, 125]
}

pub fn write_escaped(out: &mut Vec<u8>, s: &[u8])
    ensures
        final(out)@ == old(out)@ + esc(s@),
{
    let ghost base = out@;
    let mut i: usize = 0;
    proof {
        assert(s@.take(0) =~= Seq::<u8>::empty());
        assert(base + esc(s@.take(0)) =~= base);
    }
    while i < s.len()
        invariant
            0 <= i <= s@.len(),
            out@ == base + esc(s@.take(i as int)),
        decreases s@.len() - i,
    {
        let b = s[i];
        if b == 34 {
            out.push(92);
            out.push(34);
        } else if b == 92 {
            out.push(92);
            out.push(92);
        } else if b == 10 {
            out.push(92);
            out.push(110);
        } else if b == 13 {
            out.push(92);
            out.push(114);
        } else if b == 9 {
            out.push(92);
            out.push(116);
        } else {
            out.push(b);
        }
        proof {
            assert(s@.take(i as int + 1) =~= s@.take(i as int).push(s@[i as int]));
            lemma_esc_snoc(s@.take(i as int), s@[i as int]);
            assert(out@ =~= base + esc(s@.take(i as int + 1)));
        }
        i = i + 1;
    }
    proof {
        assert(s@.take(s@.len() as int) =~= s@);
    }
}

fn write_jstr(out: &mut Vec<u8>, s: &[u8])
    ensures
        final(out)@ == old(out)@ + jstr(s@),
{
    let ghost base = out@;
    out.push(34);
    proof {
        assert(out@ =~= base + seq![34u8]);
    }
    write_escaped(out, s);
    out.push(34);
    proof {
        assert(out@ =~= base + jstr(s@));
    }
}

fn write_scheme(out: &mut Vec<u8>, v: &SchemeValue)
    ensures
        final(out)@ == old(out)@ + jscheme(v@),
{
    let ghost base = out@;
    match v {
        SchemeValue::Plain(s) => {
            write_jstr(out, s.as_slice());
        },
        SchemeValue::Structured(es) => {
            out.push(123);
            let ghost evs = entries_view(es@);
            let mut i: usize = 0;
            proof {
                assert(evs.take(0) =~= Seq::<EntryView>::empty());
                assert(out@ =~= base + seq![123u8] + jentries(evs.take(0)));
            }
            while i < es.len()
                invariant
                    0 <= i <= es@.len(),
                    evs == entries_view(es@),
                    out@ == base + seq![123u8] + jentries(evs.take(i as int)),
                decreases es@.len() - i,
            {
                if i > 0 {
                    out.push(44);
                }
                let e = &es[i];
                write_jstr(out, e.key.as_slice());
                out.push(58);
                write_jstr(out, e.value.as_slice());
                proof {
                    assert(evs.take(i as int + 1) =~= evs.take(i as int).push(evs[i as int]));
                    lemma_jentries_snoc(evs.take(i as int), evs[i as int]);
                    assert(jentries(seq![evs[i as int]]) =~= jentry(evs[i as int]));
                    assert(out@ =~= base + seq![123u8] + jentries(evs.take(i as int + 1)));
                }
                i = i + 1;
            }
            out.push(125);
            proof {
                assert(evs.take(evs.len() as int) =~= evs);
                assert(out@ =~= base + jscheme(v@));
            }
        },
    }
}

/// Builds the batched request body from the merged mapping: one JSON
/// document `{"schemes":[...]}` holding the scheme values only, in mapping
/// order; names are not sent, the registry correlates by scheme content.
pub fn build_request(decls: &Vec<DependencyDeclaration>) -> (r: Vec<u8>)
    ensures
        r@ == render_request_spec(decls_view(decls@)),
{
    let mut out: Vec<u8> = Vec::new();
    out.push(123);
    out.push(34);
    out.push(115);
    out.push(99);
    out.push(104);
    out.push(101);
    out.push(109);
    out.push(101);
    out.push(115);
    out.push(34);
    out.push(58);
    out.push(91);
    let ghost dvs = decls_view(decls@);
    proof {
        assert(dvs.take(0) =~= Seq::<DeclView>::empty());
        assert(out@ =~= request_prefix() + jschemes(dvs.take(0)));
    }
    let mut i: usize = 0;
    while i < decls.len()
        invariant
            0 <= i <= decls@.len(),
            dvs == decls_view(decls@),
            out@ == request_prefix() + jschemes(dvs.take(i as int)),
        decreases decls@.len() - i,
    {
        if i > 0 {
            out.push(44);
        }
        write_scheme(&mut out, &decls[i].scheme);
        proof {
            assert(dvs.take(i as int + 1) =~= dvs.take(i as int).push(dvs[i as int]));
            lemma_jschemes_snoc(dvs.take(i as int), dvs[i as int]);
            assert(jschemes(seq![dvs[i as int]]) =~= jscheme(dvs[i as int].scheme));
            assert(out@ =~= request_prefix() + jschemes(dvs.take(i as int + 1)));
        }
        i = i + 1;
    }
    out.push(93);
    out.push(125);
    proof {
        assert(dvs.take(dvs.len() as int) =~= dvs);
        assert(out@ =~= render_request_spec(dvs));
    }
    out
}

/// JSON whitespace: space, tab, newline, carriage return.
pub open spec fn is_jws(b: u8) -> bool {
    b == 32 || b == 9 || b == 10 || b == 13
}

fn byte_is_jws(b: u8) -> (r: bool)
    ensures
        r == is_jws(b),
{
    b == 32 || b == 9 || b == 10 || b == 13
}

pub open spec fn jtrim(s: Seq<u8>) -> Seq<u8>
    decreases s.len(),
{
    if s.len() == 0 {
        s
    } else if is_jws(s[0]) {
        jtrim(s.drop_first())
    } else {
        s
    }
}

pub proof fn lemma_jtrim_len(s: Seq<u8>)
    ensures
        jtrim(s).len() <= s.len(),
    decreases s.len(),
{
    if s.len() > 0 && is_jws(s[0]) {
        lemma_jtrim_len(s.drop_first());
    }
}

fn jtrim_sl<'a>(s: &'a [u8]) -> (r: &'a [u8])
    ensures
        r@ == jtrim(s@),
{
    proof {
        assert(s@.subrange(0, s@.len() as int) =~= s@);
    }
    let mut lo: usize = 0;
    while lo < s.len() && byte_is_jws(s[lo])
        invariant
            0 <= lo <= s@.len(),
            jtrim(s@) == jtrim(s@.subrange(lo as int, s@.len() as int)),
        decreases s@.len() - lo,
    {
        proof {
            assert(s@.subrange(lo as int, s@.len() as int).drop_first() =~= s@.subrange(
                lo as int + 1,
                s@.len() as int,
            ));
        }
        lo = lo + 1;
    }
    vstd::slice::slice_subrange(s, lo, s.len())
}

/// The members of a response record, read from the bytes after its opening
/// brace: the fields in order, and the remainder after the closing brace.
pub open spec fn parse_fields_spec(s: Seq<u8>) -> Option<(Seq<EntryView>, Seq<u8>)>
    decreases s.len(),
{
    let t = jtrim(s);
    if t.len() == 0 {
        None
    } else if t[0] == 125 {
        Some((Seq::<EntryView>::empty(), t.drop_first()))
    } else if t[0] == 34 {
        match scan_str_spec(t.drop_first()) {
            None => None,
            Some(pk) => {
                let r1 = jtrim(pk.1);
                if r1.len() == 0 || r1[0] != 58 {
                    None
                } else {
                    let r2 = jtrim(r1.drop_first());
                    if r2.len() == 0 || r2[0] != 34 {
                        None
                    } else {
                        match scan_str_spec(r2.drop_first()) {
                            None => None,
                            Some(pv) => {
                                let entry = EntryView { key: pk.0, value: pv.0 };
                                let r3 = jtrim(pv.1);
                                if r3.len() == 0 {
                                    None
                                } else if r3[0] == 125 {
                                    Some((seq![entry], r3.drop_first()))
                                } else if r3[0] == 44 {
                                    proof {
                                        lemma_jtrim_len(s);
                                        lemma_scan_str_len(t.drop_first());
                                        lemma_jtrim_len(pk.1);
                                        lemma_jtrim_len(r1.drop_first());
                                        lemma_scan_str_len(r2.drop_first());
                                        lemma_jtrim_len(pv.1);
                                    }
                                    match parse_fields_spec(r3.drop_first()) {
                                        None => None,
                                        Some(p) => Some((seq![entry] + p.0, p.1)),
                                    }
                                } else {
                                    None
                                }
                            },
                        }
                    }
                }
            },
        }
    } else {
        None
    }
}

pub proof fn lemma_parse_fields_len(s: Seq<u8>)
    ensures
        parse_fields_spec(s) is Some ==> parse_fields_spec(s)->Some_0.1.len() < s.len(),
    decreases s.len(),
{
    lemma_jtrim_len(s);
    let t = jtrim(s);
    if t.len() > 0 && t[0] != 125 && t[0] == 34 {
        lemma_scan_str_len(t.drop_first());
        match scan_str_spec(t.drop_first()) {
            None => {},
            Some(pk) => {
                lemma_jtrim_len(pk.1);
                let r1 = jtrim(pk.1);
                if r1.len() > 0 && r1[0] == 58 {
                    lemma_jtrim_len(r1.drop_first());
                    let r2 = jtrim(r1.drop_first());
                    if r2.len() > 0 && r2[0] == 34 {
                        lemma_scan_str_len(r2.drop_first());
                        match scan_str_spec(r2.drop_first()) {
                            None => {},
                            Some(pv) => {
                                lemma_jtrim_len(pv.1);
                                let r3 = jtrim(pv.1);
                                if r3.len() > 0 && r3[0] == 44 {
                                    lemma_parse_fields_len(r3.drop_first());
                                }
                            },
                        }
                    }
                }
            },
        }
    }
}

fn parse_fields<'a>(s: &'a [u8]) -> (r: Option<(Vec<TableEntry>, &'a [u8])>)
    ensures
        match r {
            Some(p) => parse_fields_spec(s@) == Some((entries_view(p.0@), p.1@)),
            None => parse_fields_spec(s@) is None,
        },
    decreases s@.len(),
{
    let t = jtrim_sl(s);
    if t.len() == 0 {
        None
    } else if t[0] == 125 {
        let rest = vstd::slice::slice_subrange(t, 1, t.len());
        proof {
            assert(t@.subrange(1, t@.len() as int) =~= t@.drop_first());
            assert(entries_view(Seq::<TableEntry>::empty()) =~= Seq::<EntryView>::empty());
        }
        Some((Vec::new(), rest))
    } else if t[0] == 34 {
        let tail = vstd::slice::slice_subrange(t, 1, t.len());
        proof {
            assert(t@.subrange(1, t@.len() as int) =~= t@.drop_first());
        }
        match scan_str(tail) {
            None => None,
            Some(pk) => {
                let (key, after_key) = pk;
                let r1 = jtrim_sl(after_key);
                if r1.len() == 0 || r1[0] != 58 {
                    None
                } else {
                    let r2 = jtrim_sl(vstd::slice::slice_subrange(r1, 1, r1.len()));
                    proof {
                        assert(r1@.subrange(1, r1@.len() as int) =~= r1@.drop_first());
                    }
                    if r2.len() == 0 || r2[0] != 34 {
                        None
                    } else {
                        let vtail = vstd::slice::slice_subrange(r2, 1, r2.len());
                        proof {
                            assert(r2@.subrange(1, r2@.len() as int) =~= r2@.drop_first());
                        }
                        match scan_str(vtail) {
                            None => None,
                            Some(pv) => {
                                let (value, after_value) = pv;
                                let entry = TableEntry { key: key, value: value };
                                let r3 = jtrim_sl(after_value);
                                if r3.len() == 0 {
                                    None
                                } else if r3[0] == 125 {
                                    let rest = vstd::slice::slice_subrange(r3, 1, r3.len());
                                    let mut v: Vec<TableEntry> = Vec::new();
                                    v.push(entry);
                                    proof {
                                        assert(r3@.subrange(1, r3@.len() as int) =~= r3@
                                            .drop_first());
                                        assert(entries_view(v@) =~~= seq![
                                            parse_fields_spec(s@)->Some_0.0[0],
                                        ]);
                                    }
                                    Some((v, rest))
                                } else if r3[0] == 44 {
                                    let next = vstd::slice::slice_subrange(r3, 1, r3.len());
                                    proof {
                                        assert(r3@.subrange(1, r3@.len() as int) =~= r3@
                                            .drop_first());
                                        lemma_jtrim_len(s@);
                                        lemma_scan_str_len(t@.drop_first());
                                        lemma_jtrim_len(after_key@);
                                        lemma_jtrim_len(r1@.drop_first());
                                        lemma_scan_str_len(r2@.drop_first());
                                        lemma_jtrim_len(after_value@);
                                    }
                                    match parse_fields(next) {
                                        None => None,
                                        Some(p) => {
                                            let (rest_fields, rest) = p;
                                            let ghost rf0 = entries_view(rest_fields@);
                                            let mut rest_fields = rest_fields;
                                            rest_fields.insert(0, entry);
                                            proof {
                                                assert(entries_view(rest_fields@) =~~= seq![
                                                    EntryView { key: key@, value: value@ },
                                                ] + rf0);
                                            }
                                            Some((rest_fields, rest))
                                        },
                                    }
                                } else {
                                    None
                                }
                            },
                        }
                    }
                }
            },
        }
    } else {
        None
    }
}

// The field names of a resolved record, as byte strings.
pub open spec fn kw_name() -> Seq<u8> {
    seq![110u8, 97, 109, 101]
}

pub open spec fn kw_version() -> Seq<u8> {
    seq![118u8, 101, 114, 115, 105, 111, 110]
}

pub open spec fn kw_repository_url() -> Seq<u8> {
    seq![114u8, 101, 112, 111, 115, 105, 116, 111, 114, 121, 95, 117, 114, 108]
}

pub open spec fn kw_rev() -> Seq<u8> {
    seq![114u8, 101, 118]
}

pub open spec fn kw_scheme() -> Seq<u8> {
    seq![115u8, 99, 104, 101, 109, 101]
}

fn is_kw_name(s: &[u8]) -> (r: bool)
    ensures
        r == (s@ == kw_name()),
{
    let r = s.len() == 4 && s[0] == 110 && s[1] == 97 && s[2] == 109 && s[3] == 101;
    proof {
        if r {
            assert(s@ =~= kw_name());
        }
    }
    r
}

fn is_kw_version(s: &[u8]) -> (r: bool)
    ensures
        r == (s@ == kw_version()),
{
    let r = s.len() == 7 && s[0] == 118 && s[1] == 101 && s[2] == 114 && s[3] == 115 && s[4]
        == 105 && s[5] == 111 && s[6] == 110;
    proof {
        if r {
            assert(s@ =~= kw_version());
        }
    }
    r
}

fn is_kw_repository_url(s: &[u8]) -> (r: bool)
    ensures
        r == (s@ == kw_repository_url()),
{
    let r = s.len() == 14 && s[0] == 114 && s[1] == 101 && s[2] == 112 && s[3] == 111 && s[4]
        == 115 && s[5] == 105 && s[6] == 116 && s[7] == 111 && s[8] == 114 && s[9] == 121 && s[10]
        == 95 && s[11] == 117 && s[12] == 114 && s[13] == 108;
    proof {
        if r {
            assert(s@ =~= kw_repository_url());
        }
    }
    r
}

fn is_kw_rev(s: &[u8]) -> (r: bool)
    ensures
        r == (s@ == kw_rev()),
{
    let r = s.len() == 3 && s[0] == 114 && s[1] == 101 && s[2] == 118;
    proof {
        if r {
            assert(s@ =~= kw_rev());
        }
    }
    r
}

fn is_kw_scheme(s: &[u8]) -> (r: bool)
    ensures
        r == (s@ == kw_scheme()),
{
    let r = s.len() == 6 && s[0] == 115 && s[1] == 99 && s[2] == 104 && s[3] == 101 && s[4] == 109
        && s[5] == 101;
    proof {
        if r {
            assert(s@ =~= kw_scheme());
        }
    }
    r
}

/// The value of the last member named `key`, if any: later duplicates win.
pub open spec fn field_of(fs: Seq<EntryView>, key: Seq<u8>) -> Option<Seq<u8>>
    decreases fs.len(),
{
    if fs.len() == 0 {
        None
    } else {
        match field_of(fs.drop_first(), key) {
            Some(v) => Some(v),
            None => if fs[0].key == key {
                Some(fs[0].value)
            } else {
                None
            },
        }
    }
}

pub proof fn lemma_field_of_snoc(fs: Seq<EntryView>, e: EntryView, key: Seq<u8>)
    ensures
        field_of(fs.push(e), key) == if e.key == key {
            Some(e.value)
        } else {
            field_of(fs, key)
        },
    decreases fs.len(),
{
    if fs.len() == 0 {
        assert(fs.push(e)[0] == e);
        assert(fs.push(e).drop_first() =~= Seq::<EntryView>::empty());
    } else {
        assert(fs.push(e)[0] == fs[0]);
        assert(fs.push(e).drop_first() =~= fs.drop_first().push(e));
        lemma_field_of_snoc(fs.drop_first(), e, key);
    }
}

/// The record a member object denotes: all five fields must be present,
/// read by name, later duplicates winning; extra members are ignored.
pub open spec fn record_of(fs: Seq<EntryView>) -> Option<RecordView> {
    if field_of(fs, kw_name()) is Some && field_of(fs, kw_version()) is Some && field_of(
        fs,
        kw_repository_url(),
    ) is Some && field_of(fs, kw_rev()) is Some && field_of(fs, kw_scheme()) is Some {
        Some(
            RecordView {
                name: field_of(fs, kw_name())->Some_0,
                version: field_of(fs, kw_version())->Some_0,
                repository_url: field_of(fs, kw_repository_url())->Some_0,
                rev: field_of(fs, kw_rev())->Some_0,
                scheme: field_of(fs, kw_scheme())->Some_0,
            },
        )
    } else {
        None
    }
}

pub open spec fn opt_bytes_view(o: Option<Vec<u8>>) -> Option<Seq<u8>> {
    match o {
        Some(v) => Some(v@),
        None => None,
    }
}

fn record_of_ex(fs: &Vec<TableEntry>) -> (r: Option<ResolvedDependency>)
    ensures
        match r {
            Some(d) => record_of(entries_view(fs@)) == Some(d@),
            None => record_of(entries_view(fs@)) is None,
        },
{
    let ghost evs = entries_view(fs@);
    let mut name: Option<Vec<u8>> = None;
    let mut version: Option<Vec<u8>> = None;
    let mut repository_url: Option<Vec<u8>> = None;
    let mut rev: Option<Vec<u8>> = None;
    let mut scheme: Option<Vec<u8>> = None;
    let mut i: usize = 0;
    proof {
        assert(evs.take(0) =~= Seq::<EntryView>::empty());
    }
    while i < fs.len()
        invariant
            0 <= i <= fs@.len(),
            evs == entries_view(fs@),
            opt_bytes_view(name) == field_of(evs.take(i as int), kw_name()),
            opt_bytes_view(version) == field_of(evs.take(i as int), kw_version()),
            opt_bytes_view(repository_url) == field_of(evs.take(i as int), kw_repository_url()),
            opt_bytes_view(rev) == field_of(evs.take(i as int), kw_rev()),
            opt_bytes_view(scheme) == field_of(evs.take(i as int), kw_scheme()),
        decreases fs@.len() - i,
    {
        let f = &fs[i];
        proof {
            assert(evs.take(i as int + 1) =~= evs.take(i as int).push(evs[i as int]));
            lemma_field_of_snoc(evs.take(i as int), evs[i as int], kw_name());
            lemma_field_of_snoc(evs.take(i as int), evs[i as int], kw_version());
            lemma_field_of_snoc(evs.take(i as int), evs[i as int], kw_repository_url());
            lemma_field_of_snoc(evs.take(i as int), evs[i as int], kw_rev());
            lemma_field_of_snoc(evs.take(i as int), evs[i as int], kw_scheme());
        }
        if is_kw_name(f.key.as_slice()) {
            name = Some(clone_bytes(&f.value));
        } else if is_kw_version(f.key.as_slice()) {
            version = Some(clone_bytes(&f.value));
        } else if is_kw_repository_url(f.key.as_slice()) {
            repository_url = Some(clone_bytes(&f.value));
        } else if is_kw_rev(f.key.as_slice()) {
            rev = Some(clone_bytes(&f.value));
        } else if is_kw_scheme(f.key.as_slice()) {
            scheme = Some(clone_bytes(&f.value));
        }
        i = i + 1;
    }
    proof {
        assert(evs.take(evs.len() as int) =~= evs);
    }
    match (name, version, repository_url, rev, scheme) {
        (Some(n), Some(ve), Some(u), Some(re), Some(sc)) => Some(
            ResolvedDependency {
                name: n,
                version: ve,
                repository_url: u,
                rev: re,
                scheme: sc,
            },
        ),
        _ => None,
    }
}

/// The records of the response object, read from the bytes after its opening
/// brace: each member is a scheme identifier naming a record object.  The
/// member keys themselves are not kept; correlation goes by each record's
/// own `scheme` field.
pub open spec fn parse_members_spec(s: Seq<u8>) -> Option<(Seq<RecordView>, Seq<u8>)>
    decreases s.len(),
{
    let t = jtrim(s);
    if t.len() == 0 {
        None
    } else if t[0] == 125 {
        Some((Seq::<RecordView>::empty(), t.drop_first()))
    } else if t[0] == 34 {
        match scan_str_spec(t.drop_first()) {
            None => None,
            Some(pk) => {
                let r1 = jtrim(pk.1);
                if r1.len() == 0 || r1[0] != 58 {
                    None
                } else {
                    let r2 = jtrim(r1.drop_first());
                    if r2.len() == 0 || r2[0] != 123 {
                        None
                    } else {
                        match parse_fields_spec(r2.drop_first()) {
                            None => None,
                            Some(pf) => match record_of(pf.0) {
                                None => None,
                                Some(rec) => {
                                    let r3 = jtrim(pf.1);
                                    if r3.len() == 0 {
                                        None
                                    } else if r3[0] == 125 {
                                        Some((seq![rec], r3.drop_first()))
                                    } else if r3[0] == 44 {
                                        proof {
                                            lemma_jtrim_len(s);
                                            lemma_scan_str_len(t.drop_first());
                                            lemma_jtrim_len(pk.1);
                                            lemma_jtrim_len(r1.drop_first());
                                            lemma_parse_fields_len(r2.drop_first());
                                            lemma_jtrim_len(pf.1);
                                        }
                                        match parse_members_spec(r3.drop_first()) {
                                            None => None,
                                            Some(pm) => Some((seq![rec] + pm.0, pm.1)),
                                        }
                                    } else {
                                        None
                                    }
                                },
                            },
                        }
                    }
                }
            },
        }
    } else {
        None
    }
}

fn parse_members<'a>(s: &'a [u8]) -> (r: Option<(Vec<ResolvedDependency>, &'a [u8])>)
    ensures
        match r {
            Some(p) => parse_members_spec(s@) == Some((records_view(p.0@), p.1@)),
            None => parse_members_spec(s@) is None,
        },
    decreases s@.len(),
{
    let t = jtrim_sl(s);
    if t.len() == 0 {
        None
    } else if t[0] == 125 {
        let rest = vstd::slice::slice_subrange(t, 1, t.len());
        proof {
            assert(t@.subrange(1, t@.len() as int) =~= t@.drop_first());
            assert(records_view(Seq::<ResolvedDependency>::empty()) =~= Seq::<
                RecordView,
            >::empty());
        }
        Some((Vec::new(), rest))
    } else if t[0] == 34 {
        let tail = vstd::slice::slice_subrange(t, 1, t.len());
        proof {
            assert(t@.subrange(1, t@.len() as int) =~= t@.drop_first());
        }
        match scan_str(tail) {
            None => None,
            Some(pk) => {
                let (_key, after_key) = pk;
                let r1 = jtrim_sl(after_key);
                if r1.len() == 0 || r1[0] != 58 {
                    None
                } else {
                    let r2 = jtrim_sl(vstd::slice::slice_subrange(r1, 1, r1.len()));
                    proof {
                        assert(r1@.subrange(1, r1@.len() as int) =~= r1@.drop_first());
                    }
                    if r2.len() == 0 || r2[0] != 123 {
                        None
                    } else {
                        let ftail = vstd::slice::slice_subrange(r2, 1, r2.len());
                        proof {
                            assert(r2@.subrange(1, r2@.len() as int) =~= r2@.drop_first());
                        }
                        match parse_fields(ftail) {
                            None => None,
                            Some(pf) => {
                                let (fields, after_fields) = pf;
                                match record_of_ex(&fields) {
                                    None => None,
                                    Some(rec) => {
                                        let r3 = jtrim_sl(after_fields);
                                        if r3.len() == 0 {
                                            None
                                        } else if r3[0] == 125 {
                                            let rest = vstd::slice::slice_subrange(
                                                r3,
                                                1,
                                                r3.len(),
                                            );
                                            let mut v: Vec<ResolvedDependency> = Vec::new();
                                            v.push(rec);
                                            proof {
                                                assert(r3@.subrange(1, r3@.len() as int) =~= r3@
                                                    .drop_first());
                                                assert(records_view(v@) =~~= seq![
                                                    parse_members_spec(s@)->Some_0.0[0],
                                                ]);
                                            }
                                            Some((v, rest))
                                        } else if r3[0] == 44 {
                                            let next = vstd::slice::slice_subrange(
                                                r3,
                                                1,
                                                r3.len(),
                                            );
                                            proof {
                                                assert(r3@.subrange(1, r3@.len() as int) =~= r3@
                                                    .drop_first());
                                                lemma_jtrim_len(s@);
                                                lemma_scan_str_len(t@.drop_first());
                                                lemma_jtrim_len(after_key@);
                                                lemma_jtrim_len(r1@.drop_first());
                                                lemma_parse_fields_len(r2@.drop_first());
                                                lemma_jtrim_len(after_fields@);
                                            }
                                            match parse_members(next) {
                                                None => None,
                                                Some(pm) => {
                                                    let (rest_recs, rest) = pm;
                                                    let ghost rr0 = records_view(rest_recs@);
                                                    let mut rest_recs = rest_recs;
                                                    rest_recs.insert(0, rec);
                                                    proof {
                                                        assert(records_view(rest_recs@) =~~= seq![
                                                            record_of(
                                                                parse_fields_spec(
                                                                    r2@.drop_first(),
                                                                )->Some_0.0,
                                                            )->Some_0,
                                                        ] + rr0);
                                                    }
                                                    Some((rest_recs, rest))
                                                },
                                            }
                                        } else {
                                            None
                                        }
                                    },
                                }
                            },
                        }
                    }
                }
            },
        }
    } else {
        None
    }
}

/// What decoding a whole response body yields: one top-level object of
/// records, with nothing but whitespace around it.
pub open spec fn decode_response_spec(body: Seq<u8>) -> Option<Seq<RecordView>> {
    let t = jtrim(body);
    if t.len() == 0 || t[0] != 123 {
        None
    } else {
        match parse_members_spec(t.drop_first()) {
            None => None,
            Some(p) => if jtrim(p.1).len() == 0 {
                Some(p.0)
            } else {
                None
            },
        }
    }
}

/// Decodes the registry's response body into the resolved records, in
/// response order.  Every body that does not decode into the expected shape
/// is the one opaque resolution error.
pub fn decode_response(body: &[u8]) -> (r: Result<Vec<ResolvedDependency>, ResolveError>)
    ensures
        match r {
            Ok(v) => decode_response_spec(body@) == Some(records_view(v@)),
            Err(e) => decode_response_spec(body@) is None && e == ResolveError::Unexpected,
        },
{
    let t = jtrim_sl(body);
    if t.len() == 0 || t[0] != 123 {
        return Err(ResolveError::Unexpected);
    }
    let tail = vstd::slice::slice_subrange(t, 1, t.len());
    proof {
        assert(t@.subrange(1, t@.len() as int) =~= t@.drop_first());
    }
    match parse_members(tail) {
        None => Err(ResolveError::Unexpected),
        Some(p) => {
            let (records, after) = p;
            let rest = jtrim_sl(after);
            if rest.len() == 0 {
                Ok(records)
            } else {
                Err(ResolveError::Unexpected)
            }
        },
    }
}

/// The addressable identifier of a plain scheme: the bytes before the first
/// colon; the version tag after it is not part of the identity the registry
/// answers under.
pub open spec fn scheme_id(s: Seq<u8>) -> Seq<u8>
    decreases s.len(),
{
    if s.len() == 0 {
        s
    } else if s[0] == 58 {
        Seq::<u8>::empty()
    } else {
        seq![s[0]] + scheme_id(s.drop_first())
    }
}

proof fn lemma_scheme_id_prefix(s: Seq<u8>, i: int)
    requires
        0 <= i <= s.len(),
        forall|j: int| 0 <= j < i ==> s[j] != 58,
        i == s.len() || s[i] == 58,
    ensures
        scheme_id(s) == s.take(i),
    decreases s.len(),
{
    if s.len() == 0 {
        assert(scheme_id(s) =~= s.take(i));
    } else if s[0] == 58 {
        assert(i == 0);
        assert(scheme_id(s) =~= s.take(0));
    } else {
        assert(i >= 1);
        assert(forall|j: int| 0 <= j < i - 1 ==> s.drop_first()[j] == s[j + 1]);
        lemma_scheme_id_prefix(s.drop_first(), i - 1);
        assert(scheme_id(s) =~= s.take(i));
    }
}

fn scheme_id_ex(s: &[u8]) -> (r: Vec<u8>)
    ensures
        r@ == scheme_id(s@),
{
    let mut i: usize = 0;
    while i < s.len() && s[i] != 58
        invariant
            0 <= i <= s@.len(),
            forall|j: int| 0 <= j < i ==> s@[j] != 58,
        decreases s@.len() - i,
    {
        i = i + 1;
    }
    proof {
        lemma_scheme_id_prefix(s@, i as int);
        assert(s@.subrange(0, i as int) =~= s@.take(i as int));
    }
    vstd::slice::slice_to_vec(vstd::slice::slice_subrange(s, 0, i))
}

/// Every plain scheme in the mapping is answered by some record whose own
/// `scheme` field equals the scheme's identifier.
pub open spec fn covers(records: Seq<RecordView>, ds: Seq<DeclView>) -> bool {
    forall|i: int|
        0 <= i < ds.len() && (#[trigger] ds[i]).scheme is Plain ==> exists|j: int|
            0 <= j < records.len() && (#[trigger] records[j]).scheme == scheme_id(
                ds[i].scheme->Plain_0,
            )
}

/// The round-trip guard: checks that every plain scheme sent in the request
/// is answered under its identifier among the records' own `scheme` fields,
/// so that no requested dependency is silently dropped.
pub fn response_covers(records: &Vec<ResolvedDependency>, decls: &Vec<DependencyDeclaration>) -> (r:
    bool)
    ensures
        r == covers(records_view(records@), decls_view(decls@)),
{
    let ghost rv = records_view(records@);
    let ghost dv = decls_view(decls@);
    let mut i: usize = 0;
    while i < decls.len()
        invariant
            0 <= i <= decls@.len(),
            rv == records_view(records@),
            dv == decls_view(decls@),
            forall|i2: int|
                0 <= i2 < i && (#[trigger] dv[i2]).scheme is Plain ==> exists|j: int|
                    0 <= j < rv.len() && (#[trigger] rv[j]).scheme == scheme_id(
                        dv[i2].scheme->Plain_0,
                    ),
        decreases decls@.len() - i,
    {
        match &decls[i].scheme {
            SchemeValue::Plain(s) => {
                let sid = scheme_id_ex(s.as_slice());
                let mut found = false;
                let mut j: usize = 0;
                while j < records.len()
                    invariant
                        0 <= j <= records@.len(),
                        rv == records_view(records@),
                        sid@ == scheme_id(s@),
                        found <==> exists|j2: int|
                            0 <= j2 < j && (#[trigger] rv[j2]).scheme == sid@,
                    decreases records@.len() - j,
                {
                    let matched = bytes_eq(records[j].scheme.as_slice(), sid.as_slice());
                    proof {
                        assert(rv[j as int] == records@[j as int]@);
                        if matched {
                            assert(rv[j as int].scheme == sid@);
                            assert(exists|j2: int|
                                0 <= j2 < j + 1 && (#[trigger] rv[j2]).scheme == sid@);
                        }
                    }
                    if matched {
                        found = true;
                    }
                    j = j + 1;
                }
                if !found {
                    proof {
                        assert(dv[i as int].scheme is Plain);
                        assert(dv[i as int].scheme->Plain_0 == s@);
                        assert(!covers(rv, dv));
                    }
                    return false;
                }
            },
            SchemeValue::Structured(_) => {},
        }
        i = i + 1;
    }
    true
}

} // verus!
