//! What the declaration reader of [`crate::scan`] makes of ordinary struct
//! declarations.
use vstd::prelude::*;

use crate::scan::{
    distinct_names, field_step, group_fits, has_name, ident_step, initial_state, item_fits,
    lemma_upsert_distinct, name_index, punct_overflows, punct_step, run_group, run_item,
    scan_group, scan_item, upsert, FieldSpec, ScanState, Token,
};

verus! {

/// What the reader sees of a token inside a group.
pub enum Lexeme {
    Word(Seq<char>),
    Mark(char),
    Other,
}

/// What the reader sees of a token.
pub open spec fn lexeme(t: Token) -> Lexeme {
    match t {
        Token::Ident(w) => Lexeme::Word(w@),
        Token::Punct(c) => Lexeme::Mark(c),
        _ => Lexeme::Other,
    }
}

/// What the reader sees of a token list.
pub open spec fn lexemes(toks: Seq<Token>) -> Seq<Lexeme> {
    toks.map_values(|t: Token| lexeme(t))
}

/// [`field_step`] on what the reader sees.
pub open spec fn lex_step(s: ScanState, l: Lexeme) -> (ScanState, bool) {
    match l {
        Lexeme::Word(w) => ident_step(s, w),
        Lexeme::Mark(c) => (punct_step(s, c), true),
        Lexeme::Other => (s, true),
    }
}

/// Whether a lexeme would carry a counter out of the `i8` range.
pub open spec fn lex_overflows(s: ScanState, l: Lexeme) -> bool {
    match l {
        Lexeme::Mark(c) => punct_overflows(s, c),
        _ => false,
    }
}

/// [`run_group`] on what the reader sees.
pub open spec fn run_lex(s: ScanState, m: Seq<FieldSpec>, ls: Seq<Lexeme>) -> (
    ScanState,
    Seq<FieldSpec>,
)
    decreases ls.len(),
{
    if ls.len() == 0 {
        (s, m)
    } else {
        let (s2, write) = lex_step(s, ls[0]);
        let m2 = if write {
            upsert(m, s2.attr)
        } else {
            m
        };
        run_lex(s2, m2, ls.drop_first())
    }
}

/// [`group_fits`] on what the reader sees.
pub open spec fn lex_fits(s: ScanState, ls: Seq<Lexeme>) -> bool
    decreases ls.len(),
{
    ls.len() == 0 || (!lex_overflows(s, ls[0]) && lex_fits(lex_step(s, ls[0]).0, ls.drop_first()))
}

proof fn lemma_run_lexemes(s: ScanState, m: Seq<FieldSpec>, toks: Seq<Token>)
    ensures
        run_group(s, m, toks) == run_lex(s, m, lexemes(toks)),
        group_fits(s, toks) == lex_fits(s, lexemes(toks)),
    decreases toks.len(),
{
    if toks.len() > 0 {
        assert(lexemes(toks)[0] == lexeme(toks[0]));
        assert(lexemes(toks).drop_first() =~= lexemes(toks.drop_first()));
        let (s2, write) = field_step(s, toks[0]);
        assert(field_step(s, toks[0]) == lex_step(s, lexeme(toks[0])));
        let m2 = if write {
            upsert(m, s2.attr)
        } else {
            m
        };
        lemma_run_lexemes(s2, m2, toks.drop_first());
    }
}

proof fn lemma_run_lex_append(s: ScanState, m: Seq<FieldSpec>, a: Seq<Lexeme>, b: Seq<Lexeme>)
    ensures
        run_lex(s, m, a + b) == run_lex(run_lex(s, m, a).0, run_lex(s, m, a).1, b),
        lex_fits(s, a + b) == (lex_fits(s, a) && lex_fits(run_lex(s, m, a).0, b)),
    decreases a.len(),
{
    if a.len() == 0 {
        assert(a + b =~= b);
    } else {
        assert((a + b)[0] == a[0]);
        assert((a + b).drop_first() =~= a.drop_first() + b);
        let (s2, write) = lex_step(s, a[0]);
        let m2 = if write {
            upsert(m, s2.attr)
        } else {
            m
        };
        lemma_run_lex_append(s2, m2, a.drop_first(), b);
    }
}

proof fn lemma_run_one(s: ScanState, m: Seq<FieldSpec>, l: Lexeme)
    ensures
        run_lex(s, m, seq![l]) == (lex_step(s, l).0, if lex_step(s, l).1 {
            upsert(m, lex_step(s, l).0.attr)
        } else {
            m
        }),
        lex_fits(s, seq![l]) == !lex_overflows(s, l),
{
    let e = Seq::<Lexeme>::empty();
    assert(seq![l].drop_first() =~= e);
    let (s2, write) = lex_step(s, l);
    let m2 = if write {
        upsert(m, s2.attr)
    } else {
        m
    };
    assert(run_lex(s2, m2, e) == (s2, m2));
    assert(lex_fits(s2, e));
}

/// Overwriting the last description, whose name no other description has.
proof fn lemma_upsert_last(m: Seq<FieldSpec>, a: FieldSpec, b: FieldSpec)
    requires
        !has_name(m, a.name),
        a.name == b.name,
    ensures
        upsert(m.push(a), b) == m.push(b),
{
    let mp = m.push(a);
    assert(mp[m.len() as int].name == b.name);
    assert(has_name(mp, b.name));
    let k = name_index(mp, b.name);
    if k < m.len() {
        assert(m[k].name == a.name);
    }
    assert(k == m.len());
    assert(mp.update(k, b) =~= m.push(b));
}

/// A field declaration `#[..].. [pub] name: Type` whose type is a path
/// `a::b::..::z`, possibly wrapped as `Option<a::..::z>`, and which carries
/// `attrs` outer attributes or doc comments (each `#` and a bracket group).
pub struct FieldDecl {
    pub attrs: nat,
    pub is_pub: bool,
    pub name: Seq<char>,
    pub path: Seq<Seq<char>>,
    pub wrapped: bool,
}

/// `k` attributes `#[..]`: each a `#` and a group.
pub open spec fn attr_lexemes(k: nat) -> Seq<Lexeme>
    decreases k,
{
    if k == 0 {
        Seq::empty()
    } else {
        seq![Lexeme::Mark('#'), Lexeme::Other] + attr_lexemes((k - 1) as nat)
    }
}

/// `::b::..::z`, the segments after the first.
pub open spec fn path_tail(q: Seq<Seq<char>>) -> Seq<Lexeme>
    decreases q.len(),
{
    if q.len() == 0 {
        Seq::empty()
    } else {
        seq![Lexeme::Mark(':'), Lexeme::Mark(':'), Lexeme::Word(q[0])] + path_tail(q.drop_first())
    }
}

/// `a::b::..::z`.
pub open spec fn path_lexemes(p: Seq<Seq<char>>) -> Seq<Lexeme> {
    seq![Lexeme::Word(p[0])] + path_tail(p.drop_first())
}

/// The declared type.
pub open spec fn type_lexemes(d: FieldDecl) -> Seq<Lexeme> {
    if d.wrapped {
        seq![Lexeme::Word("Option"@), Lexeme::Mark('<')] + path_lexemes(d.path) + seq![
            Lexeme::Mark('>'),
        ]
    } else {
        path_lexemes(d.path)
    }
}

/// `[pub] name`.
pub open spec fn vis_name_lexemes(d: FieldDecl) -> Seq<Lexeme> {
    if d.is_pub {
        seq![Lexeme::Word("pub"@), Lexeme::Word(d.name)]
    } else {
        seq![Lexeme::Word(d.name)]
    }
}

/// `#[..].. [pub] name: Type`.
pub open spec fn decl_body(d: FieldDecl) -> Seq<Lexeme> {
    attr_lexemes(d.attrs) + (vis_name_lexemes(d) + (seq![Lexeme::Mark(':')] + type_lexemes(d)))
}

/// `[pub] name: Type,`.
pub open spec fn decl_lexemes(d: FieldDecl) -> Seq<Lexeme> {
    decl_body(d) + seq![Lexeme::Mark(',')]
}

/// The declarations one after the other, each followed by a comma.
pub open spec fn decls_lexemes(ds: Seq<FieldDecl>) -> Seq<Lexeme>
    decreases ds.len(),
{
    if ds.len() == 0 {
        Seq::empty()
    } else {
        decls_lexemes(ds.drop_last()) + decl_lexemes(ds.last())
    }
}

/// The description the reader should give of a declaration.
pub open spec fn described(d: FieldDecl) -> FieldSpec {
    FieldSpec { name: d.name, value_type: d.path.last(), opt: d.wrapped }
}

/// A declaration whose name is not empty and neither `pub` nor `Option`,
/// and whose path has at least one segment, none of them `Option`.
pub open spec fn plain_decl(d: FieldDecl) -> bool {
    &&& d.path.len() > 0
    &&& d.name.len() > 0
    &&& d.name != "pub"@
    &&& d.name != "Option"@
    &&& forall|k: int| 0 <= k < d.path.len() ==> #[trigger] d.path[k] != "Option"@
}

/// Plain declarations with distinct names.
pub open spec fn plain_decls(ds: Seq<FieldDecl>) -> bool {
    &&& forall|i: int| 0 <= i < ds.len() ==> plain_decl(#[trigger] ds[i])
    &&& forall|i: int, j: int|
        0 <= i < ds.len() && 0 <= j < ds.len() && i != j ==> ds[i].name != ds[j].name
}

/// The reader between two fields.
pub open spec fn between(s: ScanState) -> bool {
    &&& (s.stage == 0 || s.stage == 1)
    &&& s.colons == 0
    &&& s.depth == 0
    &&& s.attr.value_type != "Option"@
}

/// The reader right after a declaration.
pub open spec fn after(d: FieldDecl) -> ScanState {
    ScanState { stage: 1, colons: 0, depth: 0, attr: described(d) }
}

/// What the reader writes before the first field when that field carries
/// attributes: the description it starts from, unnamed.
pub open spec fn lead(ds: Seq<FieldDecl>) -> Seq<FieldSpec> {
    if ds.len() > 0 && ds[0].attrs > 0 {
        seq![initial_state().attr]
    } else {
        Seq::empty()
    }
}

/// The descriptions the reader gives of a list of declarations.
pub open spec fn described_all(ds: Seq<FieldDecl>) -> Seq<FieldSpec> {
    lead(ds) + ds.map_values(|d: FieldDecl| described(d))
}

proof fn lemma_upsert_present(m: Seq<FieldSpec>, a: FieldSpec, i: int)
    requires
        distinct_names(m),
        0 <= i < m.len(),
        m[i] == a,
    ensures
        upsert(m, a) == m,
{
    assert(has_name(m, a.name));
    let k = name_index(m, a.name);
    assert(k == i);
    assert(m.update(i, a) =~= m);
}

proof fn lemma_upsert_twice(m: Seq<FieldSpec>, a: FieldSpec)
    requires
        distinct_names(m),
    ensures
        upsert(upsert(m, a), a) == upsert(m, a),
        distinct_names(upsert(m, a)),
{
    lemma_upsert_distinct(m, a);
    let m1 = upsert(m, a);
    if has_name(m, a.name) {
        let k = name_index(m, a.name);
        lemma_upsert_present(m1, a, k);
    } else {
        lemma_upsert_present(m1, a, m.len() as int);
    }
}

proof fn lemma_upsert_names(m: Seq<FieldSpec>, a: FieldSpec, n: Seq<char>)
    ensures
        has_name(upsert(m, a), n) ==> has_name(m, n) || a.name == n,
{
    if has_name(upsert(m, a), n) {
        let u = upsert(m, a);
        let j = choose|j: int| 0 <= j < u.len() && u[j].name == n;
        if has_name(m, a.name) {
            let k = name_index(m, a.name);
            if j != k {
                assert(m[j].name == n);
            }
        } else {
            if j < m.len() {
                assert(m[j].name == n);
            }
        }
    }
}

proof fn lemma_attrs(s: ScanState, m: Seq<FieldSpec>, k: nat)
    requires
        distinct_names(m),
    ensures
        run_lex(s, m, attr_lexemes(k)) == (s, if k > 0 {
            upsert(m, s.attr)
        } else {
            m
        }),
        lex_fits(s, attr_lexemes(k)),
    decreases k,
{
    if k > 0 {
        let h = Lexeme::Mark('#');
        let o = Lexeme::Other;
        let rest = attr_lexemes((k - 1) as nat);
        assert(attr_lexemes(k) =~= seq![h] + (seq![o] + rest));
        lemma_run_lex_append(s, m, seq![h], seq![o] + rest);
        lemma_run_one(s, m, h);
        assert(punct_step(s, '#') == s);
        let m1 = upsert(m, s.attr);
        lemma_upsert_twice(m, s.attr);
        lemma_run_lex_append(s, m1, seq![o], rest);
        lemma_run_one(s, m1, o);
        lemma_attrs(s, m1, (k - 1) as nat);
    }
}

proof fn lemma_vis_name(s: ScanState, m: Seq<FieldSpec>, d: FieldDecl) -> (a: FieldSpec)
    requires
        between(s),
        plain_decl(d),
        !has_name(m, d.name),
    ensures
        run_lex(s, m, vis_name_lexemes(d)) == (
            ScanState { stage: 2, colons: 0, depth: 0, attr: a },
            m.push(a),
        ),
        lex_fits(s, vis_name_lexemes(d)),
        a.name == d.name,
        !a.opt,
        a.value_type != "Option"@,
{
    reveal_strlit("pub");
    reveal_strlit("Option");
    assert("pub"@.len() == 3);
    assert("Option"@.len() == 6);
    assert("pub"@ != "Option"@);
    if d.is_pub {
        let w1 = Lexeme::Word("pub"@);
        let w2 = Lexeme::Word(d.name);
        assert(vis_name_lexemes(d) =~= seq![w1] + seq![w2]);
        lemma_run_lex_append(s, m, seq![w1], seq![w2]);
        lemma_run_one(s, m, w1);
        let s1 = lex_step(s, w1).0;
        lemma_run_one(s1, m, w2);
        let s2 = lex_step(s1, w2).0;
        assert(m.push(s2.attr) == upsert(m, s2.attr));
        s2.attr
    } else {
        let w2 = Lexeme::Word(d.name);
        assert(vis_name_lexemes(d) =~= seq![w2]);
        lemma_run_one(s, m, w2);
        let s2 = lex_step(s, w2).0;
        assert(m.push(s2.attr) == upsert(m, s2.attr));
        s2.attr
    }
}

proof fn lemma_path_tail(s: ScanState, m: Seq<FieldSpec>, q: Seq<Seq<char>>)
    requires
        s.stage == 1,
        s.colons == 0,
        s.depth == 0 || s.depth == 1,
        s.attr.value_type != "Option"@,
        !has_name(m, s.attr.name),
        forall|k: int| 0 <= k < q.len() ==> #[trigger] q[k] != "Option"@,
    ensures
        ({
            let t = ScanState {
                stage: 1,
                colons: 0,
                depth: s.depth,
                attr: FieldSpec {
                    name: s.attr.name,
                    value_type: if q.len() == 0 {
                        s.attr.value_type
                    } else {
                        q.last()
                    },
                    opt: s.attr.opt,
                },
            };
            run_lex(s, m.push(s.attr), path_tail(q)) == (t, m.push(t.attr))
        }),
        lex_fits(s, path_tail(q)),
    decreases q.len(),
{
    if q.len() > 0 {
        let c = Lexeme::Mark(':');
        let w = Lexeme::Word(q[0]);
        let mp = m.push(s.attr);
        assert(path_tail(q) =~= seq![c] + (seq![c] + (seq![w] + path_tail(q.drop_first()))));
        lemma_run_lex_append(s, mp, seq![c], seq![c] + (seq![w] + path_tail(q.drop_first())));
        lemma_run_one(s, mp, c);
        let s1 = lex_step(s, c).0;
        lemma_upsert_last(m, s.attr, s1.attr);
        lemma_run_lex_append(s1, m.push(s1.attr), seq![c], seq![w] + path_tail(q.drop_first()));
        lemma_run_one(s1, m.push(s1.attr), c);
        let s2 = lex_step(s1, c).0;
        lemma_upsert_last(m, s1.attr, s2.attr);
        lemma_run_lex_append(s2, m.push(s2.attr), seq![w], path_tail(q.drop_first()));
        lemma_run_one(s2, m.push(s2.attr), w);
        let s3 = lex_step(s2, w).0;
        assert(q[0] != "Option"@);
        lemma_upsert_last(m, s2.attr, s3.attr);
        assert forall|k: int| 0 <= k < q.drop_first().len() implies #[trigger] q.drop_first()[k]
            != "Option"@ by {
            assert(q.drop_first()[k] == q[k + 1]);
        }
        lemma_path_tail(s3, m, q.drop_first());
        if q.drop_first().len() > 0 {
            assert(q.drop_first().last() == q.last());
        }
    }
}

proof fn lemma_type(s: ScanState, m: Seq<FieldSpec>, d: FieldDecl)
    requires
        s.stage == 2,
        s.colons == 1,
        s.depth == 0,
        s.attr.name == d.name,
        !s.attr.opt,
        s.attr.value_type != "Option"@,
        !has_name(m, d.name),
        plain_decl(d),
    ensures
        run_lex(s, m.push(s.attr), type_lexemes(d)) == (after(d), m.push(described(d))),
        lex_fits(s, type_lexemes(d)),
{
    reveal_strlit("Option");
    let mp = m.push(s.attr);
    let p = d.path;
    let w0 = Lexeme::Word(p[0]);
    assert(p[0] != "Option"@);
    assert forall|k: int| 0 <= k < p.drop_first().len() implies #[trigger] p.drop_first()[k]
        != "Option"@ by {
        assert(p.drop_first()[k] == p[k + 1]);
    }
    if p.drop_first().len() > 0 {
        assert(p.drop_first().last() == p.last());
    } else {
        assert(p.len() == 1);
    }
    if d.wrapped {
        let o = Lexeme::Word("Option"@);
        let lt = Lexeme::Mark('<');
        let gt = Lexeme::Mark('>');
        assert(type_lexemes(d) =~= seq![o] + (seq![lt] + (seq![w0] + (path_tail(p.drop_first())
            + seq![gt]))));
        lemma_run_lex_append(
            s,
            mp,
            seq![o],
            seq![lt] + (seq![w0] + (path_tail(p.drop_first()) + seq![gt])),
        );
        lemma_run_one(s, mp, o);
        let s1 = lex_step(s, o).0;
        lemma_upsert_last(m, s.attr, s1.attr);
        lemma_run_lex_append(
            s1,
            m.push(s1.attr),
            seq![lt],
            seq![w0] + (path_tail(p.drop_first()) + seq![gt]),
        );
        lemma_run_one(s1, m.push(s1.attr), lt);
        let s2 = lex_step(s1, lt).0;
        lemma_upsert_last(m, s1.attr, s2.attr);
        lemma_run_lex_append(s2, m.push(s2.attr), seq![w0], path_tail(p.drop_first()) + seq![gt]);
        lemma_run_one(s2, m.push(s2.attr), w0);
        let s3 = lex_step(s2, w0).0;
        lemma_upsert_last(m, s2.attr, s3.attr);
        lemma_run_lex_append(s3, m.push(s3.attr), path_tail(p.drop_first()), seq![gt]);
        lemma_path_tail(s3, m, p.drop_first());
        let s4 = run_lex(s3, m.push(s3.attr), path_tail(p.drop_first())).0;
        lemma_run_one(s4, m.push(s4.attr), gt);
        lemma_upsert_last(m, s4.attr, lex_step(s4, gt).0.attr);
    } else {
        assert(type_lexemes(d) =~= seq![w0] + path_tail(p.drop_first()));
        lemma_run_lex_append(s, mp, seq![w0], path_tail(p.drop_first()));
        lemma_run_one(s, mp, w0);
        let s1 = lex_step(s, w0).0;
        lemma_upsert_last(m, s.attr, s1.attr);
        lemma_path_tail(s1, m, p.drop_first());
    }
}

proof fn lemma_decl(s: ScanState, m: Seq<FieldSpec>, d: FieldDecl)
    requires
        between(s),
        plain_decl(d),
        distinct_names(m),
        !has_name(m, d.name),
        s.attr.name != d.name,
    ensures
        ({
            let ma = if d.attrs > 0 {
                upsert(m, s.attr)
            } else {
                m
            };
            &&& run_lex(s, m, decl_body(d)) == (after(d), ma.push(described(d)))
            &&& run_lex(s, m, decl_lexemes(d)) == (after(d), ma.push(described(d)))
            &&& distinct_names(ma.push(described(d)))
        }),
        lex_fits(s, decl_body(d)),
        lex_fits(s, decl_lexemes(d)),
{
    reveal_strlit("Option");
    let ma = if d.attrs > 0 {
        upsert(m, s.attr)
    } else {
        m
    };
    lemma_attrs(s, m, d.attrs);
    lemma_upsert_distinct(m, s.attr);
    lemma_upsert_names(m, s.attr, d.name);
    assert(!has_name(ma, d.name));
    assert(distinct_names(ma));
    let c = Lexeme::Mark(':');
    let a = lemma_vis_name(s, ma, d);
    let s1 = ScanState { stage: 2, colons: 0, depth: 0, attr: a };
    let tail = vis_name_lexemes(d) + (seq![c] + type_lexemes(d));
    lemma_run_lex_append(s, m, attr_lexemes(d.attrs), tail);
    lemma_run_lex_append(s, ma, vis_name_lexemes(d), seq![c] + type_lexemes(d));
    lemma_run_lex_append(s1, ma.push(a), seq![c], type_lexemes(d));
    lemma_run_one(s1, ma.push(a), c);
    let s2 = lex_step(s1, c).0;
    lemma_upsert_last(ma, a, s2.attr);
    lemma_type(s2, ma, d);
    let comma = Lexeme::Mark(',');
    lemma_run_lex_append(s, m, decl_body(d), seq![comma]);
    lemma_run_one(after(d), ma.push(described(d)), comma);
    lemma_upsert_last(ma, described(d), described(d));
    lemma_upsert_distinct(ma, described(d));
    assert(upsert(ma, described(d)) == ma.push(described(d)));
}

proof fn lemma_decls(ds: Seq<FieldDecl>)
    requires
        plain_decls(ds),
    ensures
        run_lex(initial_state(), Seq::empty(), decls_lexemes(ds)).1 == described_all(ds),
        distinct_names(described_all(ds)),
        ds.len() > 0 ==> run_lex(initial_state(), Seq::empty(), decls_lexemes(ds)).0 == after(
            ds.last(),
        ),
        ds.len() == 0 ==> run_lex(initial_state(), Seq::empty(), decls_lexemes(ds)).0
            == initial_state(),
        lex_fits(initial_state(), decls_lexemes(ds)),
        ds.len() > 0 ==> run_lex(
            initial_state(),
            Seq::empty(),
            decls_lexemes(ds.drop_last()) + decl_body(ds.last()),
        ) == run_lex(initial_state(), Seq::empty(), decls_lexemes(ds)),
        ds.len() > 0 ==> lex_fits(
            initial_state(),
            decls_lexemes(ds.drop_last()) + decl_body(ds.last()),
        ),
    decreases ds.len(),
{
    reveal_strlit("Option");
    let m0 = Seq::<FieldSpec>::empty();
    if ds.len() == 0 {
        assert(described_all(ds) =~= Seq::<FieldSpec>::empty());
    } else {
        let p = ds.drop_last();
        let d = ds.last();
        assert(plain_decls(p)) by {
            assert forall|i: int| 0 <= i < p.len() implies plain_decl(#[trigger] p[i]) by {
                assert(p[i] == ds[i]);
            }
        }
        lemma_decls(p);
        let (s, m) = run_lex(initial_state(), m0, decls_lexemes(p));
        assert(m == described_all(p));
        assert(plain_decl(ds[ds.len() - 1]));
        let pm = p.map_values(|d: FieldDecl| described(d));
        assert(!has_name(m, d.name)) by {
            if has_name(m, d.name) {
                let i = choose|i: int| 0 <= i < m.len() && m[i].name == d.name;
                let l = lead(p).len();
                if i < l {
                    assert(m[i].name.len() == 0);
                } else {
                    assert(m[i] == pm[i - l]);
                    assert(pm[i - l] == described(p[i - l]));
                    assert(p[i - l] == ds[i - l]);
                    assert(ds[i - l].name != ds[ds.len() - 1].name);
                }
            }
        }
        let ma = if d.attrs > 0 {
            upsert(m, s.attr)
        } else {
            m
        };
        if p.len() > 0 {
            assert(plain_decl(p[p.len() - 1]));
            let q = p.last().path;
            assert(q[q.len() - 1] != "Option"@);
            assert(p.last() == ds[p.len() - 1]);
            assert(s.attr.name != d.name);
            assert(lead(p) == lead(ds)) by {
                assert(p[0] == ds[0]);
            }
            assert(m[m.len() - 1] == s.attr) by {
                assert(m[m.len() - 1] == pm[p.len() - 1]);
            }
            if d.attrs > 0 {
                lemma_upsert_present(m, s.attr, m.len() - 1);
            }
            assert(ma == m);
            assert(ma.push(described(d)) =~= described_all(ds));
        } else {
            assert(s == initial_state());
            assert(s.attr.value_type.len() == 0);
            assert(s.attr.name.len() == 0);
            assert(m =~= Seq::<FieldSpec>::empty());
            assert(ds[0] == d);
            if d.attrs > 0 {
                assert(!has_name(m, s.attr.name));
                assert(ma =~= seq![initial_state().attr]);
            } else {
                assert(ma =~= Seq::<FieldSpec>::empty());
            }
            assert(ma == lead(ds));
            assert(ds.map_values(|d: FieldDecl| described(d)) =~= seq![described(d)]);
            assert(ma.push(described(d)) =~= described_all(ds));
        }
        assert(between(s));
        lemma_decl(s, m, d);
        lemma_run_lex_append(initial_state(), m0, decls_lexemes(p), decl_lexemes(d));
        lemma_run_lex_append(initial_state(), m0, decls_lexemes(p), decl_body(d));
    }
}

/// Fields declared in the ordinary way, `[pub] name: a::..::z` or
/// `[pub] name: Option<a::..::z>`, each preceded by any number of outer
/// attributes or doc comments and followed by a comma (the last comma may be
/// left out), are read as one description per field, in declaration order:
/// its name, the last segment of its type path, and whether the type was
/// wrapped in `Option`. Attributes change nothing, except that attributes on
/// the first field make the reader write one unnamed description first.
/// The names must be distinct, not empty, and neither `pub` nor `Option`,
/// and no path segment may be `Option`.
pub proof fn law_plain_fields_read_in_order(toks: Seq<Token>, ds: Seq<FieldDecl>)
    requires
        plain_decls(ds),
        lexemes(toks) == decls_lexemes(ds) || (ds.len() > 0 && lexemes(toks) == decls_lexemes(
            ds.drop_last(),
        ) + decl_body(ds.last())),
    ensures
        group_fits(initial_state(), toks),
        scan_group(Seq::empty(), toks) == lead(ds) + ds.map_values(|d: FieldDecl| described(d)),
{
    lemma_decls(ds);
    lemma_run_lexemes(initial_state(), Seq::empty(), toks);
}

/// A struct declared as `[pub] struct Name { fields }`, its fields as in
/// [`law_plain_fields_read_in_order`], is read as `Name` and the
/// descriptions of its fields, in declaration order.
pub proof fn law_plain_struct_read(
    toks: Seq<Token>,
    is_pub: bool,
    name: Seq<char>,
    body: Vec<Token>,
    ds: Seq<FieldDecl>,
)
    requires
        plain_decls(ds),
        lexemes(body@) == decls_lexemes(ds) || (ds.len() > 0 && lexemes(body@) == decls_lexemes(
            ds.drop_last(),
        ) + decl_body(ds.last())),
        toks.len() == if is_pub {
            4int
        } else {
            3int
        },
        is_pub ==> lexeme(toks[0]) == Lexeme::Word("pub"@),
        lexeme(toks[toks.len() - 3]) == Lexeme::Word("struct"@),
        lexeme(toks[toks.len() - 2]) == Lexeme::Word(name),
        toks[toks.len() - 1] == Token::Group(body),
    ensures
        scan_item(toks) == (name, lead(ds) + ds.map_values(|d: FieldDecl| described(d))),
        group_fits(initial_state(), body@),
{
    law_plain_fields_read_in_order(body@, ds);
    let e = Seq::<FieldSpec>::empty();
    let n = toks.len();
    let t1 = toks.skip(n - 3);
    let t2 = toks.skip(n - 2);
    let t3 = toks.skip(n - 1);
    assert(t1[0] == toks[n - 3]);
    assert(t2[0] == toks[n - 2]);
    assert(t3[0] == toks[n - 1]);
    assert(t1.drop_first() =~= t2);
    assert(t2.drop_first() =~= t3);
    assert(t3.drop_first() =~= Seq::<Token>::empty());
    let fields = scan_group(e, body@);
    assert(run_item(3, name, e, t3) == run_item(4, name, fields, Seq::<Token>::empty()));
    assert(run_item(4, name, fields, Seq::<Token>::empty()) == (name, fields));
    assert(run_item(2, name, e, t3) == run_item(3, name, fields, Seq::<Token>::empty()));
    assert(run_item(3, name, fields, Seq::<Token>::empty()) == (name, fields));
    if is_pub {
        assert(toks.drop_first() =~= t1);
        match toks[0] {
            Token::Ident(w) => {},
            _ => {},
        }
        assert(run_item(0, Seq::empty(), e, toks) == run_item(1, Seq::empty(), e, t1));
        assert(run_item(1, Seq::empty(), e, t1) == run_item(2, "struct"@, e, t2)) by {
            match toks[n - 3] {
                Token::Ident(w) => {},
                _ => {},
            }
        }
        assert(run_item(2, "struct"@, e, t2) == run_item(3, name, e, t3)) by {
            match toks[n - 2] {
                Token::Ident(w) => {},
                _ => {},
            }
        }
    } else {
        assert(toks =~= t1);
        assert(run_item(0, Seq::empty(), e, toks) == run_item(1, Seq::empty(), e, t2)) by {
            match toks[n - 3] {
                Token::Ident(w) => {},
                _ => {},
            }
        }
        assert(run_item(1, Seq::empty(), e, t2) == run_item(2, name, e, t3)) by {
            match toks[n - 2] {
                Token::Ident(w) => {},
                _ => {},
            }
        }
    }
}

proof fn lemma_colons_overflow(s: ScanState, g: Seq<Token>, n: int)
    requires
        0 <= n,
        0 <= s.colons,
        s.colons + n == 127,
        g.len() > n,
        forall|j: int| 0 <= j <= n ==> #[trigger] g[j] == Token::Punct(':'),
    ensures
        !group_fits(s, g),
    decreases n,
{
    assert(g[0] == Token::Punct(':'));
    if n > 0 {
        let s2 = field_step(s, g[0]).0;
        assert forall|j: int| 0 <= j <= n - 1 implies #[trigger] g.drop_first()[j] == Token::Punct(
            ':',
        ) by {
            assert(g.drop_first()[j] == g[j + 1]);
        }
        lemma_colons_overflow(s2, g.drop_first(), n - 1);
    }
}

/// A declaration with a group that opens with 128 `:` in a row is refused:
/// the colon counter, an `i8`, would pass 127.
pub proof fn law_colon_run_overflows(toks: Seq<Token>, i: int, g: Vec<Token>)
    requires
        0 <= i < toks.len(),
        toks[i] == Token::Group(g),
        g@.len() >= 128,
        forall|j: int| 0 <= j < 128 ==> #[trigger] g@[j] == Token::Punct(':'),
    ensures
        !item_fits(toks),
{
    lemma_colons_overflow(initial_state(), g@, 127);
    assert(!match toks[i] {
        Token::Group(g) => group_fits(initial_state(), g@),
        _ => true,
    });
}

} // verus!
