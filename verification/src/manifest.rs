//! The manifest side of the pipeline: dependency declarations, the scheme
//! values they carry, and a parser for the manifest's `dependencies` section.
//!
//! The parser reads a line-oriented subset of the manifest format: section
//! headers are dot-separated bare keys in brackets, entries are
//! `key = "string"` or `key = { k = "v", ... }`, blank lines and `#` comments
//! are skipped.  Inside the recognized sections every line must be
//! understood; outside them only well-formed headers are interpreted and
//! other lines are passed over.
use crate::bytes::{
    bare_len, bare_prefix_len, lemma_bare_len_bounds, lemma_scan_str_len, lemma_trim_start_len,
    scan_str, scan_str_spec, split_lines, split_lines_spec, trim, trim_spec, trim_start_sl,
    trim_start_spec, views,
};
use vstd::prelude::*;

verus! {

/// One field of a structured scheme table, an opaque key/value pair.
pub struct TableEntry {
    pub key: Vec<u8>,
    pub value: Vec<u8>,
}

#[verifier::ext_equal]
pub struct EntryView {
    pub key: Seq<u8>,
    pub value: Seq<u8>,
}

impl View for TableEntry {
    type V = EntryView;

    open spec fn view(&self) -> EntryView {
        EntryView { key: self.key@, value: self.value@ }
    }
}

/// An addressing token for the registry: either a plain string or a
/// structured table whose fields the pipeline passes through uninterpreted.
pub enum SchemeValue {
    Plain(Vec<u8>),
    Structured(Vec<TableEntry>),
}

#[verifier::ext_equal]
pub enum SchemeView {
    Plain(Seq<u8>),
    Structured(Seq<EntryView>),
}

pub open spec fn entries_view(s: Seq<TableEntry>) -> Seq<EntryView> {
    s.map_values(|e: TableEntry| e@)
}

impl View for SchemeValue {
    type V = SchemeView;

    open spec fn view(&self) -> SchemeView {
        match self {
            SchemeValue::Plain(v) => SchemeView::Plain(v@),
            SchemeValue::Structured(es) => SchemeView::Structured(entries_view(es@)),
        }
    }
}

/// One declared dependency: its name and the raw scheme value under it.
pub struct DependencyDeclaration {
    pub name: Vec<u8>,
    pub scheme: SchemeValue,
}

#[verifier::ext_equal]
pub struct DeclView {
    pub name: Seq<u8>,
    pub scheme: SchemeView,
}

impl View for DependencyDeclaration {
    type V = DeclView;

    open spec fn view(&self) -> DeclView {
        DeclView { name: self.name@, scheme: self.scheme@ }
    }
}

pub open spec fn decls_view(s: Seq<DependencyDeclaration>) -> Seq<DeclView> {
    s.map_values(|d: DependencyDeclaration| d@)
}

// The keywords of the manifest schema, as byte strings.
pub open spec fn kw_dependencies() -> Seq<u8> {
    seq![100u8, 101, 112, 101, 110, 100, 101, 110, 99, 105, 101, 115]
}

pub open spec fn kw_movey() -> Seq<u8> {
    seq![109u8, 111, 118, 101, 121]
}

pub open spec fn kw_packages() -> Seq<u8> {
    seq![112u8, 97, 99, 107, 97, 103, 101, 115]
}

pub open spec fn kw_onchain() -> Seq<u8> {
    seq![111u8, 110, 99, 104, 97, 105, 110]
}

pub open spec fn kw_resolver() -> Seq<u8> {
    seq![114u8, 101, 115, 111, 108, 118, 101, 114]
}

fn is_kw_movey(s: &[u8]) -> (r: bool)
    ensures
        r == (s@ == kw_movey()),
{
    let r = s.len() == 5 && s[0] == 109 && s[1] == 111 && s[2] == 118 && s[3] == 101 && s[4]
        == 121;
    proof {
        if r {
            assert(s@ =~= kw_movey());
        }
    }
    r
}

fn is_kw_dependencies(s: &[u8]) -> (r: bool)
    ensures
        r == (s@ == kw_dependencies()),
{
    let r = s.len() == 12 && s[0] == 100 && s[1] == 101 && s[2] == 112 && s[3] == 101 && s[4]
        == 110 && s[5] == 100 && s[6] == 101 && s[7] == 110 && s[8] == 99 && s[9] == 105 && s[10]
        == 101 && s[11] == 115;
    proof {
        if r {
            assert(s@ =~= kw_dependencies());
        }
    }
    r
}

fn is_kw_packages(s: &[u8]) -> (r: bool)
    ensures
        r == (s@ == kw_packages()),
{
    let r = s.len() == 8 && s[0] == 112 && s[1] == 97 && s[2] == 99 && s[3] == 107 && s[4] == 97
        && s[5] == 103 && s[6] == 101 && s[7] == 115;
    proof {
        if r {
            assert(s@ =~= kw_packages());
        }
    }
    r
}

fn is_kw_onchain(s: &[u8]) -> (r: bool)
    ensures
        r == (s@ == kw_onchain()),
{
    let r = s.len() == 7 && s[0] == 111 && s[1] == 110 && s[2] == 99 && s[3] == 104 && s[4] == 97
        && s[5] == 105 && s[6] == 110;
    proof {
        if r {
            assert(s@ =~= kw_onchain());
        }
    }
    r
}

fn is_kw_resolver(s: &[u8]) -> (r: bool)
    ensures
        r == (s@ == kw_resolver()),
{
    let r = s.len() == 8 && s[0] == 114 && s[1] == 101 && s[2] == 115 && s[3] == 111 && s[4]
        == 108 && s[5] == 118 && s[6] == 101 && s[7] == 114;
    proof {
        if r {
            assert(s@ =~= kw_resolver());
        }
    }
    r
}

/// The fields of an inline table `k = "v", k2 = "v2", ...`, read from the
/// bytes between its braces.  `None` when the bytes fall outside the
/// supported subset.
pub open spec fn parse_entries_spec(s: Seq<u8>) -> Option<Seq<EntryView>>
    decreases s.len(),
{
    let t = trim_start_spec(s);
    if t.len() == 0 {
        Some(Seq::<EntryView>::empty())
    } else {
        let k = bare_len(t);
        if k == 0 {
            None
        } else {
            let key = t.take(k);
            let r1 = trim_start_spec(t.skip(k));
            if r1.len() == 0 || r1[0] != 61 {
                None
            } else {
                let r2 = trim_start_spec(r1.drop_first());
                if r2.len() == 0 || r2[0] != 34 {
                    None
                } else {
                    match scan_str_spec(r2.drop_first()) {
                        None => None,
                        Some(p) => {
                            let entry = EntryView { key: key, value: p.0 };
                            let r3 = trim_start_spec(p.1);
                            if r3.len() == 0 {
                                Some(seq![entry])
                            } else if r3[0] == 44 {
                                proof {
                                    lemma_trim_start_len(s);
                                    lemma_bare_len_bounds(t);
                                    lemma_trim_start_len(t.skip(k));
                                    lemma_trim_start_len(r1.drop_first());
                                    lemma_scan_str_len(r2.drop_first());
                                    lemma_trim_start_len(p.1);
                                }
                                match parse_entries_spec(r3.drop_first()) {
                                    None => None,
                                    Some(rest) => Some(seq![entry] + rest),
                                }
                            } else {
                                None
                            }
                        },
                    }
                }
            }
        }
    }
}

/// A value on the right of `=`: a quoted string, or an inline table between
/// braces.  `None` when the value falls outside the supported subset.
pub open spec fn parse_value_spec(v: Seq<u8>) -> Option<SchemeView> {
    if v.len() == 0 {
        None
    } else if v[0] == 34 {
        match scan_str_spec(v.drop_first()) {
            Some(p) => if p.1.len() == 0 {
                Some(SchemeView::Plain(p.0))
            } else {
                None
            },
            None => None,
        }
    } else if v[0] == 123 {
        if v.len() >= 2 && v.last() == 125 {
            match parse_entries_spec(v.subrange(1, v.len() - 1)) {
                Some(es) => Some(SchemeView::Structured(es)),
                None => None,
            }
        } else {
            None
        }
    } else {
        None
    }
}

/// A dot-separated path of bare keys, as in a section header.
pub open spec fn parse_path_spec(s: Seq<u8>) -> Option<Seq<Seq<u8>>>
    decreases s.len(),
{
    let t = trim_start_spec(s);
    let k = bare_len(t);
    if k == 0 {
        None
    } else {
        let part = t.take(k);
        let r = trim_start_spec(t.skip(k));
        if r.len() == 0 {
            Some(seq![part])
        } else if r[0] == 46 {
            proof {
                lemma_trim_start_len(s);
                lemma_bare_len_bounds(t);
                lemma_trim_start_len(t.skip(k));
            }
            match parse_path_spec(r.drop_first()) {
                None => None,
                Some(rest) => Some(seq![part] + rest),
            }
        } else {
            None
        }
    }
}

pub fn parse_entries(s: &[u8]) -> (r: Option<Vec<TableEntry>>)
    ensures
        match r {
            Some(es) => parse_entries_spec(s@) == Some(entries_view(es@)),
            None => parse_entries_spec(s@) is None,
        },
    decreases s@.len(),
{
    let t = trim_start_sl(s);
    if t.len() == 0 {
        let v: Vec<TableEntry> = Vec::new();
        proof {
            assert(entries_view(v@) =~= Seq::<EntryView>::empty());
        }
        Some(v)
    } else {
        let k = bare_prefix_len(t);
        if k == 0 {
            None
        } else {
            proof {
                lemma_bare_len_bounds(t@);
            }
            let key = vstd::slice::slice_to_vec(vstd::slice::slice_subrange(t, 0, k));
            proof {
                assert(key@ =~= t@.take(k as int));
            }
            let r1 = trim_start_sl(vstd::slice::slice_subrange(t, k, t.len()));
            proof {
                assert(t@.subrange(k as int, t@.len() as int) =~= t@.skip(k as int));
            }
            if r1.len() == 0 || r1[0] != 61 {
                None
            } else {
                let r2 = trim_start_sl(vstd::slice::slice_subrange(r1, 1, r1.len()));
                proof {
                    assert(r1@.subrange(1, r1@.len() as int) =~= r1@.drop_first());
                }
                if r2.len() == 0 || r2[0] != 34 {
                    None
                } else {
                    let tail = vstd::slice::slice_subrange(r2, 1, r2.len());
                    proof {
                        assert(r2@.subrange(1, r2@.len() as int) =~= r2@.drop_first());
                    }
                    match scan_str(tail) {
                        None => None,
                        Some(p) => {
                            let (value, after) = p;
                            let entry = TableEntry { key: key, value: value };
                            let r3 = trim_start_sl(after);
                            if r3.len() == 0 {
                                let mut v: Vec<TableEntry> = Vec::new();
                                v.push(entry);
                                proof {
                                    assert(entries_view(v@) =~~= seq![
                                        EntryView {
                                            key: trim_start_spec(s@).take(bare_len(
                                                trim_start_spec(s@),
                                            )),
                                            value: value@,
                                        },
                                    ]);
                                }
                                Some(v)
                            } else if r3[0] == 44 {
                                let next = vstd::slice::slice_subrange(r3, 1, r3.len());
                                proof {
                                    assert(r3@.subrange(1, r3@.len() as int) =~= r3@.drop_first());
                                    lemma_trim_start_len(s@);
                                    lemma_trim_start_len(t@.skip(k as int));
                                    lemma_trim_start_len(r1@.drop_first());
                                    lemma_scan_str_len(r2@.drop_first());
                                    lemma_trim_start_len(after@);
                                }
                                match parse_entries(next) {
                                    None => None,
                                    Some(rest) => {
                                        let ghost rest0 = rest@;
                                        let mut rest = rest;
                                        rest.insert(0, entry);
                                        proof {
                                            assert(entries_view(rest@) =~~= seq![
                                                EntryView {
                                                    key: trim_start_spec(s@).take(bare_len(
                                                        trim_start_spec(s@),
                                                    )),
                                                    value: value@,
                                                },
                                            ] + entries_view(rest0));
                                        }
                                        Some(rest)
                                    },
                                }
                            } else {
                                None
                            }
                        },
                    }
                }
            }
        }
    }
}

pub fn parse_value(v: &[u8]) -> (r: Option<SchemeValue>)
    ensures
        match r {
            Some(sv) => parse_value_spec(v@) == Some(sv@),
            None => parse_value_spec(v@) is None,
        },
{
    if v.len() == 0 {
        None
    } else if v[0] == 34 {
        let tail = vstd::slice::slice_subrange(v, 1, v.len());
        proof {
            assert(v@.subrange(1, v@.len() as int) =~= v@.drop_first());
        }
        match scan_str(tail) {
            Some(p) => {
                if p.1.len() == 0 {
                    Some(SchemeValue::Plain(p.0))
                } else {
                    None
                }
            },
            None => None,
        }
    } else if v[0] == 123 {
        if v.len() >= 2 && v[v.len() - 1] == 125 {
            match parse_entries(vstd::slice::slice_subrange(v, 1, v.len() - 1)) {
                Some(es) => Some(SchemeValue::Structured(es)),
                None => None,
            }
        } else {
            None
        }
    } else {
        None
    }
}

pub fn parse_path(s: &[u8]) -> (r: Option<Vec<Vec<u8>>>)
    ensures
        match r {
            Some(p) => parse_path_spec(s@) == Some(views(p@)),
            None => parse_path_spec(s@) is None,
        },
    decreases s@.len(),
{
    let t = trim_start_sl(s);
    let k = bare_prefix_len(t);
    if k == 0 {
        None
    } else {
        proof {
            lemma_bare_len_bounds(t@);
        }
        let part = vstd::slice::slice_to_vec(vstd::slice::slice_subrange(t, 0, k));
        proof {
            assert(part@ =~= t@.take(k as int));
        }
        let r1 = trim_start_sl(vstd::slice::slice_subrange(t, k, t.len()));
        proof {
            assert(t@.subrange(k as int, t@.len() as int) =~= t@.skip(k as int));
        }
        if r1.len() == 0 {
            let mut v: Vec<Vec<u8>> = Vec::new();
            v.push(part);
            proof {
                assert(views(v@) =~~= seq![trim_start_spec(s@).take(bare_len(trim_start_spec(s@)))]);
            }
            Some(v)
        } else if r1[0] == 46 {
            let next = vstd::slice::slice_subrange(r1, 1, r1.len());
            proof {
                assert(r1@.subrange(1, r1@.len() as int) =~= r1@.drop_first());
                lemma_trim_start_len(s@);
                lemma_trim_start_len(t@.skip(k as int));
            }
            match parse_path(next) {
                None => None,
                Some(rest) => {
                    let ghost rest0 = rest@;
                    let mut rest = rest;
                    rest.insert(0, part);
                    proof {
                        assert(views(rest@) =~~= seq![
                            trim_start_spec(s@).take(bare_len(trim_start_spec(s@))),
                        ] + views(rest0));
                    }
                    Some(rest)
                },
            }
        } else {
            None
        }
    }
}

/// The reading of one manifest line.
pub enum LineView {
    Blank,
    Header(Seq<Seq<u8>>),
    KeyVal(Seq<u8>, SchemeView),
    KeyOther(Seq<u8>),
    Bad,
}

pub enum Line {
    Blank,
    Header(Vec<Vec<u8>>),
    KeyVal(Vec<u8>, SchemeValue),
    KeyOther(Vec<u8>),
    Bad,
}

impl View for Line {
    type V = LineView;

    open spec fn view(&self) -> LineView {
        match self {
            Line::Blank => LineView::Blank,
            Line::Header(p) => LineView::Header(views(p@)),
            Line::KeyVal(k, v) => LineView::KeyVal(k@, v@),
            Line::KeyOther(k) => LineView::KeyOther(k@),
            Line::Bad => LineView::Bad,
        }
    }
}

/// How one line of the manifest is read: blank or comment, section header,
/// an entry with a value in the supported subset, an entry with some other
/// value, or a line that fits no form.
pub open spec fn classify_spec(line: Seq<u8>) -> LineView {
    let t = trim_spec(line);
    if t.len() == 0 {
        LineView::Blank
    } else if t[0] == 35 {
        LineView::Blank
    } else if t[0] == 91 {
        if t.last() != 93 {
            LineView::Bad
        } else {
            let inner = t.subrange(1, t.len() - 1);
            let inner2 = if inner.len() >= 2 && inner[0] == 91 && inner.last() == 93 {
                inner.subrange(1, inner.len() - 1)
            } else {
                inner
            };
            match parse_path_spec(inner2) {
                Some(p) => LineView::Header(p),
                None => LineView::Bad,
            }
        }
    } else {
        let k = bare_len(t);
        if k == 0 {
            LineView::Bad
        } else {
            let key = t.take(k);
            let r1 = trim_start_spec(t.skip(k));
            if r1.len() == 0 || r1[0] != 61 {
                LineView::Bad
            } else {
                let v = trim_start_spec(r1.drop_first());
                match parse_value_spec(v) {
                    Some(sv) => LineView::KeyVal(key, sv),
                    None => LineView::KeyOther(key),
                }
            }
        }
    }
}

pub fn classify_line(line: &[u8]) -> (r: Line)
    ensures
        r@ == classify_spec(line@),
{
    let tv = trim(line);
    let t = tv.as_slice();
    if t.len() == 0 {
        Line::Blank
    } else if t[0] == 35 {
        Line::Blank
    } else if t[0] == 91 {
        if t[t.len() - 1] != 93 {
            Line::Bad
        } else {
            let inner = vstd::slice::slice_subrange(t, 1, t.len() - 1);
            let inner2 = if inner.len() >= 2 && inner[0] == 91 && inner[inner.len() - 1] == 93 {
                vstd::slice::slice_subrange(inner, 1, inner.len() - 1)
            } else {
                inner
            };
            match parse_path(inner2) {
                Some(p) => Line::Header(p),
                None => Line::Bad,
            }
        }
    } else {
        let k = bare_prefix_len(t);
        if k == 0 {
            Line::Bad
        } else {
            proof {
                lemma_bare_len_bounds(t@);
            }
            let key = vstd::slice::slice_to_vec(vstd::slice::slice_subrange(t, 0, k));
            proof {
                assert(key@ =~= t@.take(k as int));
            }
            let r1 = trim_start_sl(vstd::slice::slice_subrange(t, k, t.len()));
            proof {
                assert(t@.subrange(k as int, t@.len() as int) =~= t@.skip(k as int));
            }
            if r1.len() == 0 || r1[0] != 61 {
                Line::Bad
            } else {
                let v = trim_start_sl(vstd::slice::slice_subrange(r1, 1, r1.len()));
                proof {
                    assert(r1@.subrange(1, r1@.len() as int) =~= r1@.drop_first());
                }
                match parse_value(v) {
                    Some(sv) => Line::KeyVal(key, sv),
                    None => Line::KeyOther(key),
                }
            }
        }
    }
}

/// Why a manifest is refused.
#[derive(Clone, Copy, Debug, PartialEq, Eq, Structural)]
pub enum ManifestError {
    /// The manifest file is absent from the expected location.
    NotFound,
    /// The text does not match the expected manifest structure.
    BadFormat,
    /// The declared resolver is present but is not the one this pipeline
    /// supports.
    UnsupportedResolver,
}

impl ManifestError {
    pub fn message(&self) -> (r: &'static str)
        ensures
            self is NotFound ==> r@ == "Not in Move package root directory"@,
            self is BadFormat ==> r@ == "Wrong Move.toml format for Movey dependencies"@,
            self is UnsupportedResolver ==> r@ == "The CLI only resolve Movey dependencies."@,
    {
        match self {
            ManifestError::NotFound => "Not in Move package root directory",
            ManifestError::BadFormat => "Wrong Move.toml format for Movey dependencies",
            ManifestError::UnsupportedResolver => "The CLI only resolve Movey dependencies.",
        }
    }
}

/// The recognized resolver configuration: the declared resolver identifier
/// and the two optional declaration groups under it.
pub struct MoveyResolver {
    pub resolver: Vec<u8>,
    pub packages: Option<Vec<DependencyDeclaration>>,
    pub onchain: Option<Vec<DependencyDeclaration>>,
}

#[verifier::ext_equal]
pub struct ResolverView {
    pub resolver: Seq<u8>,
    pub packages: Option<Seq<DeclView>>,
    pub onchain: Option<Seq<DeclView>>,
}

pub open spec fn opt_decls_view(o: Option<Vec<DependencyDeclaration>>) -> Option<Seq<DeclView>> {
    match o {
        Some(v) => Some(decls_view(v@)),
        None => None,
    }
}

impl View for MoveyResolver {
    type V = ResolverView;

    open spec fn view(&self) -> ResolverView {
        ResolverView {
            resolver: self.resolver@,
            packages: opt_decls_view(self.packages),
            onchain: opt_decls_view(self.onchain),
        }
    }
}

/// The `dependencies.movey` level of the manifest.
pub struct MoveyDependencies {
    pub movey: MoveyResolver,
}

impl View for MoveyDependencies {
    type V = ResolverView;

    open spec fn view(&self) -> ResolverView {
        self.movey@
    }
}

/// The decoded manifest: its `dependencies` section.
pub struct Dependencies {
    pub dependencies: MoveyDependencies,
}

impl View for Dependencies {
    type V = ResolverView;

    open spec fn view(&self) -> ResolverView {
        self.dependencies@
    }
}

/// Which section of the manifest the parser is inside.
#[derive(Clone, Copy, Debug, PartialEq, Eq, Structural)]
pub enum Section {
    Other,
    Movey,
    Packages,
    Onchain,
}

/// The parser's running state: the current section, the resolver identifier
/// once seen, and the two declaration groups once their sections are opened.
pub struct ParseState {
    pub sec: Section,
    pub resolver: Option<Vec<u8>>,
    pub packages: Option<Vec<DependencyDeclaration>>,
    pub onchain: Option<Vec<DependencyDeclaration>>,
}

#[verifier::ext_equal]
pub struct StateView {
    pub sec: Section,
    pub resolver: Option<Seq<u8>>,
    pub packages: Option<Seq<DeclView>>,
    pub onchain: Option<Seq<DeclView>>,
}

impl View for ParseState {
    type V = StateView;

    open spec fn view(&self) -> StateView {
        StateView {
            sec: self.sec,
            resolver: match self.resolver {
                Some(v) => Some(v@),
                None => None,
            },
            packages: opt_decls_view(self.packages),
            onchain: opt_decls_view(self.onchain),
        }
    }
}

pub open spec fn init_state() -> StateView {
    StateView { sec: Section::Other, resolver: None, packages: None, onchain: None }
}

pub open spec fn path_is_movey(p: Seq<Seq<u8>>) -> bool {
    p.len() == 2 && p[0] == kw_dependencies() && p[1] == kw_movey()
}

pub open spec fn path_is_packages(p: Seq<Seq<u8>>) -> bool {
    p.len() == 3 && p[0] == kw_dependencies() && p[1] == kw_movey() && p[2] == kw_packages()
}

pub open spec fn path_is_onchain(p: Seq<Seq<u8>>) -> bool {
    p.len() == 3 && p[0] == kw_dependencies() && p[1] == kw_movey() && p[2] == kw_onchain()
}

pub open spec fn or_empty(o: Option<Seq<DeclView>>) -> Seq<DeclView> {
    match o {
        Some(s) => s,
        None => Seq::<DeclView>::empty(),
    }
}

/// What one classified line does to the parser state.  Inside the three
/// recognized sections every line must be understood; outside them only
/// headers are interpreted.
pub open spec fn step_spec(st: StateView, l: LineView) -> Result<StateView, ManifestError> {
    match l {
        LineView::Blank => Ok(st),
        LineView::Header(p) => {
            if path_is_movey(p) {
                Ok(StateView { sec: Section::Movey, ..st })
            } else if path_is_packages(p) {
                Ok(
                    StateView {
                        sec: Section::Packages,
                        packages: Some(or_empty(st.packages)),
                        ..st
                    },
                )
            } else if path_is_onchain(p) {
                Ok(StateView { sec: Section::Onchain, onchain: Some(or_empty(st.onchain)), ..st })
            } else {
                Ok(StateView { sec: Section::Other, ..st })
            }
        },
        LineView::KeyVal(k, v) => match st.sec {
            Section::Movey => {
                if k == kw_resolver() {
                    match v {
                        SchemeView::Plain(s) => Ok(StateView { resolver: Some(s), ..st }),
                        SchemeView::Structured(_) => Err(ManifestError::BadFormat),
                    }
                } else {
                    Ok(st)
                }
            },
            Section::Packages => Ok(
                StateView {
                    packages: Some(or_empty(st.packages).push(DeclView { name: k, scheme: v })),
                    ..st
                },
            ),
            Section::Onchain => Ok(
                StateView {
                    onchain: Some(or_empty(st.onchain).push(DeclView { name: k, scheme: v })),
                    ..st
                },
            ),
            Section::Other => Ok(st),
        },
        LineView::KeyOther(k) => match st.sec {
            Section::Movey => {
                if k == kw_resolver() {
                    Err(ManifestError::BadFormat)
                } else {
                    Ok(st)
                }
            },
            Section::Packages => Err(ManifestError::BadFormat),
            Section::Onchain => Err(ManifestError::BadFormat),
            Section::Other => Ok(st),
        },
        LineView::Bad => match st.sec {
            Section::Other => Ok(st),
            _ => Err(ManifestError::BadFormat),
        },
    }
}

pub open spec fn fold_spec(st: StateView, lines: Seq<Seq<u8>>) -> Result<
    StateView,
    ManifestError,
>
    decreases lines.len(),
{
    if lines.len() == 0 {
        Ok(st)
    } else {
        match step_spec(st, classify_spec(lines[0])) {
            Err(e) => Err(e),
            Ok(st2) => fold_spec(st2, lines.drop_first()),
        }
    }
}

/// The manifest's structure, before the resolver identifier is judged.
/// `Err` means the text does not fit the expected shape at all.
pub open spec fn structure_spec(text: Seq<u8>) -> Result<StateView, ManifestError> {
    fold_spec(init_state(), split_lines_spec(text))
}

/// The final judgment on a structurally valid manifest: a missing resolver
/// identifier is a format error, a foreign one is refused outright.
pub open spec fn finish_spec(st: StateView) -> Result<ResolverView, ManifestError> {
    match st.resolver {
        None => Err(ManifestError::BadFormat),
        Some(r) => {
            if r != kw_movey() {
                Err(ManifestError::UnsupportedResolver)
            } else {
                Ok(ResolverView { resolver: r, packages: st.packages, onchain: st.onchain })
            }
        },
    }
}

/// What parsing a whole manifest text yields.
pub open spec fn parse_manifest_spec(text: Seq<u8>) -> Result<ResolverView, ManifestError> {
    match structure_spec(text) {
        Err(e) => Err(e),
        Ok(st) => finish_spec(st),
    }
}

fn apply_line(st: ParseState, line: &[u8]) -> (r: Result<ParseState, ManifestError>)
    ensures
        match r {
            Ok(st2) => step_spec(st@, classify_spec(line@)) == Ok::<StateView, ManifestError>(
                st2@,
            ),
            Err(e) => step_spec(st@, classify_spec(line@)) == Err::<StateView, ManifestError>(e),
        },
{
    let ghost st0 = st@;
    match classify_line(line) {
        Line::Blank => Ok(st),
        Line::Header(p) => {
            let len = p.len();
            let p0_dep = if len >= 1 {
                is_kw_dependencies(p[0].as_slice())
            } else {
                false
            };
            let p1_movey = if len >= 2 {
                is_kw_movey(p[1].as_slice())
            } else {
                false
            };
            if len == 2 && p0_dep && p1_movey {
                Ok(ParseState { sec: Section::Movey, ..st })
            } else if len == 3 && p0_dep && p1_movey && is_kw_packages(p[2].as_slice()) {
                let ps = match st.packages {
                    Some(v) => v,
                    None => Vec::new(),
                };
                let st2 = ParseState { sec: Section::Packages, packages: Some(ps), ..st };
                proof {
                    assert(opt_decls_view(st2.packages) =~~= Some(or_empty(st0.packages)));
                }
                Ok(st2)
            } else if len == 3 && p0_dep && p1_movey && is_kw_onchain(p[2].as_slice()) {
                let os = match st.onchain {
                    Some(v) => v,
                    None => Vec::new(),
                };
                let st2 = ParseState { sec: Section::Onchain, onchain: Some(os), ..st };
                proof {
                    assert(opt_decls_view(st2.onchain) =~~= Some(or_empty(st0.onchain)));
                }
                Ok(st2)
            } else {
                Ok(ParseState { sec: Section::Other, ..st })
            }
        },
        Line::KeyVal(k, v) => match st.sec {
            Section::Movey => {
                if is_kw_resolver(k.as_slice()) {
                    match v {
                        SchemeValue::Plain(s) => Ok(ParseState { resolver: Some(s), ..st }),
                        SchemeValue::Structured(_) => Err(ManifestError::BadFormat),
                    }
                } else {
                    Ok(st)
                }
            },
            Section::Packages => {
                let mut ps = match st.packages {
                    Some(v) => v,
                    None => Vec::new(),
                };
                let ghost ps0 = decls_view(ps@);
                proof {
                    assert(ps0 =~~= or_empty(st0.packages));
                }
                ps.push(DependencyDeclaration { name: k, scheme: v });
                let st2 = ParseState { packages: Some(ps), ..st };
                proof {
                    assert(decls_view(st2.packages->Some_0@) =~~= ps0.push(
                        step_decl(classify_spec(line@)),
                    ));
                }
                Ok(st2)
            },
            Section::Onchain => {
                let mut os = match st.onchain {
                    Some(v) => v,
                    None => Vec::new(),
                };
                let ghost os0 = decls_view(os@);
                proof {
                    assert(os0 =~~= or_empty(st0.onchain));
                }
                os.push(DependencyDeclaration { name: k, scheme: v });
                let st2 = ParseState { onchain: Some(os), ..st };
                proof {
                    assert(decls_view(st2.onchain->Some_0@) =~~= os0.push(
                        step_decl(classify_spec(line@)),
                    ));
                }
                Ok(st2)
            },
            Section::Other => Ok(st),
        },
        Line::KeyOther(k) => match st.sec {
            Section::Movey => {
                if is_kw_resolver(k.as_slice()) {
                    Err(ManifestError::BadFormat)
                } else {
                    Ok(st)
                }
            },
            Section::Packages => Err(ManifestError::BadFormat),
            Section::Onchain => Err(ManifestError::BadFormat),
            Section::Other => Ok(st),
        },
        Line::Bad => match st.sec {
            Section::Other => Ok(st),
            _ => Err(ManifestError::BadFormat),
        },
    }
}

/// The declaration a `KeyVal` line contributes.
pub open spec fn step_decl(l: LineView) -> DeclView {
    match l {
        LineView::KeyVal(k, v) => DeclView { name: k, scheme: v },
        _ => DeclView { name: Seq::<u8>::empty(), scheme: SchemeView::Plain(Seq::<u8>::empty()) },
    }
}

/// Decodes manifest text against the expected schema.  The result is exactly
/// what `parse_manifest_spec` says of the text: the structure must fit,
/// the declared resolver must be the supported one, and the declarations of
/// both groups come back raw, in manifest order.
pub fn parse_manifest(text: &[u8]) -> (r: Result<Dependencies, ManifestError>)
    ensures
        match r {
            Ok(d) => parse_manifest_spec(text@) == Ok::<ResolverView, ManifestError>(d@),
            Err(e) => parse_manifest_spec(text@) == Err::<ResolverView, ManifestError>(e),
        },
{
    let lines = split_lines(text);
    let mut st = ParseState { sec: Section::Other, resolver: None, packages: None, onchain: None };
    let mut i: usize = 0;
    proof {
        assert(views(lines@).skip(0) =~= views(lines@));
        assert(st@ =~~= init_state());
    }
    while i < lines.len()
        invariant
            0 <= i <= lines@.len(),
            views(lines@) == split_lines_spec(text@),
            structure_spec(text@) == fold_spec(st@, views(lines@).skip(i as int)),
        decreases lines@.len() - i,
    {
        let ghost pre = st@;
        let line = &lines[i];
        let stepped = apply_line(st, line.as_slice());
        proof {
            assert(views(lines@).skip(i as int)[0] == line@);
            assert(views(lines@).skip(i as int).drop_first() =~= views(lines@).skip(i as int + 1));
        }
        match stepped {
            Ok(st2) => {
                st = st2;
            },
            Err(e) => {
                return Err(e);
            },
        }
        i = i + 1;
    }
    proof {
        assert(views(lines@).skip(i as int) =~= Seq::<Seq<u8>>::empty());
    }
    match st.resolver {
        None => Err(ManifestError::BadFormat),
        Some(res) => {
            if !is_kw_movey(res.as_slice()) {
                Err(ManifestError::UnsupportedResolver)
            } else {
                let d = Dependencies {
                    dependencies: MoveyDependencies {
                        movey: MoveyResolver {
                            resolver: res,
                            packages: st.packages,
                            onchain: st.onchain,
                        },
                    },
                };
                proof {
                    assert(parse_manifest_spec(text@) == Ok::<ResolverView, ManifestError>(d@));
                }
                Ok(d)
            }
        },
    }
}

} // verus!
