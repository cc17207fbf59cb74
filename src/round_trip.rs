//! Reading back what was written: a mesh read from any input, written out
//! and read again, is the same mesh. Also what a line of unknown command
//! leaves: nothing but the numbering of the lines after it.

use vstd::prelude::*;
use crate::literal::{
    decimal_text, is_digit, is_float_literal, is_sign, lemma_index_text, lower,
    lowered, word_inf, word_infinity, word_nan,
};
use crate::model::{empty_mesh, lemma_one_literal, MeshModel, Triple};
use crate::obj::{
    ParseError, apply_line, apply_lines, indices_of, kind_of, lemma_apply_append, parse_text, CommandKind,
};
use crate::scan::{
    at_line_start, lemma_run_append, lines_of, run, scan_start, step, LineModel, ScanModel,
    CARRIAGE_RETURN, HASH, NEWLINE, SLASH, SPACE,
};
use crate::write::{
    join_lines, line_text, mesh_entries, mesh_text, name_f, name_s, name_v, name_vn,
    triple_entries, words, lemma_words_one, Entry,
};

verus! {

/// A byte that the tokenizer takes as part of a token.
pub open spec fn is_plain(b: u8) -> bool {
    b != NEWLINE && b != CARRIAGE_RETURN && b != SPACE && b != HASH && b != SLASH
}

pub open spec fn all_plain(s: Seq<u8>) -> bool {
    forall|i: int| 0 <= i < s.len() ==> is_plain(#[trigger] s[i])
}

proof fn lemma_word_plain(w: Seq<u8>)
    requires
        w == word_inf() || w == word_infinity() || w == word_nan(),
    ensures
        all_plain(w),
{
    assert forall|i: int| 0 <= i < w.len() implies is_plain(#[trigger] w[i]) by {
        if w == word_inf() {
            assert(i == 0 || i == 1 || i == 2);
        } else if w == word_nan() {
            assert(i == 0 || i == 1 || i == 2);
        } else {
            assert(i == 0 || i == 1 || i == 2 || i == 3 || i == 4 || i == 5 || i == 6 || i
                == 7);
        }
    }
}

proof fn lemma_literal_plain(s: Seq<u8>)
    requires
        is_float_literal(s),
    ensures
        all_plain(s),
{
    let t = lowered(s);
    let signed = t.len() > 0 && is_sign(t[0]);
    let u = if signed { t.skip(1) } else { t };
    assert(all_plain(u)) by {
        if u == word_inf() || u == word_infinity() || u == word_nan() {
            lemma_word_plain(u);
        } else if crate::literal::is_mantissa(u) {
            assert forall|i: int| 0 <= i < u.len() implies is_plain(#[trigger] u[i]) by {
                assert(is_digit(u[i]) || u[i] == 46);
            }
        } else {
            let k = choose|k: int|
                0 <= k < u.len() && #[trigger] u[k] == 101 && crate::literal::is_mantissa(
                    u.take(k),
                ) && crate::literal::is_exponent(u.skip(k + 1));
            let e = u.skip(k + 1);
            let d = if e.len() > 0 && is_sign(e[0]) { e.skip(1) } else { e };
            assert forall|i: int| 0 <= i < u.len() implies is_plain(#[trigger] u[i]) by {
                if i < k {
                    assert(u[i] == u.take(k)[i]);
                    assert(is_digit(u.take(k)[i]) || u.take(k)[i] == 46);
                } else if i > k {
                    assert(u[i] == e[i - k - 1]);
                    if e.len() > 0 && is_sign(e[0]) && i == k + 1 {
                    } else if e.len() > 0 && is_sign(e[0]) {
                        assert(e[i - k - 1] == d[i - k - 2]);
                        assert(is_digit(d[i - k - 2]));
                    } else {
                        assert(is_digit(d[i - k - 1]));
                    }
                }
            }
        }
    }
    assert forall|i: int| 0 <= i < s.len() implies is_plain(#[trigger] s[i]) by {
        assert(t[i] == lower(s[i]));
        if signed && i > 0 {
            assert(t[i] == u[i - 1]);
        }
    }
}

proof fn lemma_run_one(s0: ScanModel, b: u8)
    ensures
        run(s0, seq![b]) == (
            step(s0, b).0,
            match step(s0, b).1 {
                Some(l) => seq![l],
                None => Seq::<LineModel>::empty(),
            },
        ),
{
    let w = seq![b];
    assert(w.drop_last() =~= Seq::<u8>::empty());
    assert(run(s0, w.drop_last()) == (s0, Seq::<LineModel>::empty()));
    assert(w.last() == b);
    match step(s0, b).1 {
        Some(l) => {
            assert(Seq::<LineModel>::empty().push(l) =~= seq![l]);
        },
        None => {},
    }
}

proof fn lemma_kinds()
    ensures
        kind_of(name_v()) == CommandKind::Vertex,
        kind_of(name_vn()) == CommandKind::Normal,
        kind_of(name_f()) == CommandKind::Face,
        kind_of(name_s()) == CommandKind::Scale,
{
    assert(name_vn() != seq![118u8]) by {
        assert(name_vn().len() != seq![118u8].len());
    }
    assert(name_f() != seq![118u8]) by {
        assert(name_f()[0] != seq![118u8][0]);
    }
    assert(name_f() != seq![118u8, 110]) by {
        assert(name_f().len() != seq![118u8, 110].len());
    }
    assert(name_s() != seq![118u8]) by {
        assert(name_s()[0] != seq![118u8][0]);
    }
    assert(name_s() != seq![118u8, 110]) by {
        assert(name_s().len() != seq![118u8, 110].len());
    }
    assert(name_s() != seq![102u8]) by {
        assert(name_s()[0] != seq![102u8][0]);
    }
}

/// Plain bytes only add to the token.
proof fn lemma_run_plain(s0: ScanModel, w: Seq<u8>)
    requires
        !s0.comment,
        !s0.ignore,
        all_plain(w),
    ensures
        run(s0, w) == (ScanModel { token: s0.token + w, ..s0 }, Seq::<LineModel>::empty()),
    decreases w.len(),
{
    if w.len() == 0 {
        assert(s0.token + w =~= s0.token);
    } else {
        let p = w.drop_last();
        assert(all_plain(p)) by {
            assert forall|i: int| 0 <= i < p.len() implies is_plain(#[trigger] p[i]) by {
                assert(p[i] == w[i]);
            }
        }
        lemma_run_plain(s0, p);
        assert(is_plain(w[w.len() - 1]));
        assert((s0.token + p).push(w.last()) =~= s0.token + w);
    }
}

/// An entry that writes as one line of its own.
pub open spec fn entry_ok(e: Entry) -> bool {
    &&& e.0.len() > 0
    &&& all_plain(e.0)
    &&& e.1.len() > 0
    &&& forall|i: int| 0 <= i < e.1.len() ==> all_plain(#[trigger] e.1[i])
}

proof fn lemma_run_words(s1: ScanModel, name: Seq<u8>, args: Seq<Seq<u8>>)
    requires
        !s1.comment,
        !s1.ignore,
        s1.command.len() == 0,
        s1.args.len() == 0,
        s1.token == name,
        name.len() > 0,
        args.len() > 0,
        forall|i: int| 0 <= i < args.len() ==> all_plain(#[trigger] args[i]),
    ensures
        run(s1, words(args)) == (
            ScanModel { command: name, args: args.drop_last(), token: args.last(), ..s1 },
            Seq::<LineModel>::empty(),
        ),
    decreases args.len(),
{
    let last = args.last();
    assert(all_plain(args[args.len() - 1]));
    if args.len() == 1 {
        assert(args.drop_last() =~= Seq::<Seq<u8>>::empty());
        assert(args =~= seq![last]);
        assert(s1.args =~= args.drop_last());
        lemma_words_one(last);
        lemma_run_append(s1, seq![SPACE], last);
        lemma_run_one(s1, SPACE);
        let s2 = ScanModel { token: seq![], command: name, ..s1 };
        assert(run(s1, seq![SPACE]).0 == s2);
        lemma_run_plain(s2, last);
        assert(seq![] + last =~= last);
        assert(Seq::<LineModel>::empty() + Seq::<LineModel>::empty() =~= Seq::<
            LineModel,
        >::empty());
    } else {
        let dl = args.drop_last();
        assert forall|i: int| 0 <= i < dl.len() implies all_plain(#[trigger] dl[i]) by {
            assert(dl[i] == args[i]);
        }
        lemma_run_words(s1, name, dl);
        let mid = ScanModel { command: name, args: dl.drop_last(), token: dl.last(), ..s1 };
        lemma_run_append(s1, words(dl), seq![SPACE]);
        lemma_run_append(s1, words(dl) + seq![SPACE], last);
        lemma_run_one(mid, SPACE);
        let s3 = ScanModel { token: seq![], args: dl, ..mid };
        assert(dl.drop_last().push(dl.last()) =~= dl);
        assert(run(mid, seq![SPACE]).0 == s3);
        lemma_run_plain(s3, last);
        assert(seq![] + last =~= last);
        assert(ScanModel { token: last, ..s3 } == ScanModel {
            command: name,
            args: args.drop_last(),
            token: args.last(),
            ..s1
        });
        assert(Seq::<LineModel>::empty() + Seq::<LineModel>::empty() =~= Seq::<
            LineModel,
        >::empty());
    }
}

proof fn lemma_run_line(s0: ScanModel, e: Entry)
    requires
        at_line_start(s0),
        entry_ok(e),
    ensures
        run(s0, line_text(e)) == (
            ScanModel { newlines: s0.newlines + 1, ..s0 },
            seq![LineModel { number: s0.newlines + 1, command: e.0, args: e.1 }],
        ),
{
    lemma_run_plain(s0, e.0);
    assert(s0.token + e.0 =~= e.0);
    let s1 = ScanModel { token: e.0, ..s0 };
    lemma_run_words(s1, e.0, e.1);
    lemma_run_append(s0, e.0, words(e.1));
    lemma_run_append(s0, e.0 + words(e.1), seq![NEWLINE]);
    let s2 = ScanModel { command: e.0, args: e.1.drop_last(), token: e.1.last(), ..s1 };
    assert(run(s0, e.0 + words(e.1)) == (s2, Seq::<LineModel>::empty())) by {
        assert(Seq::<LineModel>::empty() + Seq::<LineModel>::empty() =~= Seq::<
            LineModel,
        >::empty());
    }
    lemma_run_one(s2, NEWLINE);
    assert(line_text(e) == e.0 + words(e.1) + seq![NEWLINE]);
    assert(Seq::<LineModel>::empty() + seq![
        LineModel { number: s0.newlines + 1, command: e.0, args: e.1 },
    ] =~= seq![LineModel { number: s0.newlines + 1, command: e.0, args: e.1 }]);
    assert(e.1.drop_last().push(e.1.last()) =~= e.1);
    assert(s0.token =~= Seq::<u8>::empty());
    assert(s0.command =~= Seq::<u8>::empty());
    assert(s0.args =~= Seq::<Seq<u8>>::empty());
}

/// The lines that the scanner finds in the text of entries, numbered from `n + 1`.
pub open spec fn numbered(es: Seq<Entry>, n: nat) -> Seq<LineModel> {
    Seq::new(es.len(), |i: int| LineModel { number: n + i as nat + 1, command: es[i].0, args: es[i].1 })
}

proof fn lemma_run_join(s0: ScanModel, es: Seq<Entry>)
    requires
        at_line_start(s0),
        forall|i: int| 0 <= i < es.len() ==> entry_ok(#[trigger] es[i]),
    ensures
        run(s0, join_lines(es)) == (
            ScanModel { newlines: s0.newlines + es.len(), ..s0 },
            numbered(es, s0.newlines),
        ),
    decreases es.len(),
{
    if es.len() == 0 {
        assert(numbered(es, s0.newlines) =~= Seq::<LineModel>::empty());
    } else {
        let dl = es.drop_last();
        assert forall|i: int| 0 <= i < dl.len() implies entry_ok(#[trigger] dl[i]) by {
            assert(dl[i] == es[i]);
        }
        lemma_run_join(s0, dl);
        lemma_run_append(s0, join_lines(dl), line_text(es.last()));
        let mid = ScanModel { newlines: s0.newlines + dl.len(), ..s0 };
        assert(entry_ok(es[es.len() - 1]));
        lemma_run_line(mid, es.last());
        assert(numbered(dl, s0.newlines) + seq![
            LineModel { number: mid.newlines + 1, command: es.last().0, args: es.last().1 },
        ] =~= numbered(es, s0.newlines));
    }
}

/// Every number of the mesh is a floating-point literal.
pub open spec fn mesh_literal(m: MeshModel) -> bool {
    &&& is_float_literal(m.scale)
    &&& forall|i: int| 0 <= i < m.vertices.len() ==> triple_literal(#[trigger] m.vertices[i])
    &&& forall|i: int| 0 <= i < m.normals.len() ==> triple_literal(#[trigger] m.normals[i])
}

pub open spec fn triple_literal(t: Triple) -> bool {
    is_float_literal(t.0) && is_float_literal(t.1) && is_float_literal(t.2)
}

proof fn lemma_apply_literal(m: MeshModel, lines: Seq<LineModel>)
    requires
        mesh_literal(m),
        apply_lines(m, lines) is Ok,
    ensures
        mesh_literal(apply_lines(m, lines)->Ok_0),
    decreases lines.len(),
{
    if lines.len() > 0 {
        lemma_apply_literal(m, lines.drop_last());
        let p = apply_lines(m, lines.drop_last())->Ok_0;
        let q = apply_line(p, lines.last())->Ok_0;
        assert forall|i: int| 0 <= i < q.vertices.len() implies triple_literal(
            #[trigger] q.vertices[i],
        ) by {
            if i < p.vertices.len() {
                assert(q.vertices[i] == p.vertices[i]);
            }
        }
        assert forall|i: int| 0 <= i < q.normals.len() implies triple_literal(
            #[trigger] q.normals[i],
        ) by {
            if i < p.normals.len() {
                assert(q.normals[i] == p.normals[i]);
            }
        }
    }
}

/// Every mesh that an input yields holds literals only.
pub proof fn lemma_parse_literal(input: Seq<u8>)
    requires
        parse_text(input) is Ok,
    ensures
        mesh_literal(parse_text(input)->Ok_0),
{
    lemma_one_literal();
    lemma_apply_literal(empty_mesh(), lines_of(input));
}

proof fn lemma_triple_entry_ok(name: Seq<u8>, t: Triple)
    requires
        name.len() > 0,
        all_plain(name),
        triple_literal(t),
    ensures
        entry_ok((name, seq![t.0, t.1, t.2])),
{
    lemma_literal_plain(t.0);
    lemma_literal_plain(t.1);
    lemma_literal_plain(t.2);
    let a = seq![t.0, t.1, t.2];
    assert forall|i: int| 0 <= i < a.len() implies all_plain(#[trigger] a[i]) by {
        assert(i == 0 || i == 1 || i == 2);
    }
}

proof fn lemma_apply_triples(p: MeshModel, ls: Seq<LineModel>, name: Seq<u8>, ts: Seq<Triple>)
    requires
        name == name_v() || name == name_vn(),
        ls.len() == ts.len(),
        forall|i: int| 0 <= i < ts.len() ==> triple_literal(#[trigger] ts[i]),
        forall|i: int|
            0 <= i < ls.len() ==> (#[trigger] ls[i]).command == name && ls[i].args == seq![
                ts[i].0,
                ts[i].1,
                ts[i].2,
            ],
    ensures
        apply_lines(p, ls) == Ok::<MeshModel, crate::obj::ParseError>(
            if name == name_v() {
                MeshModel { vertices: p.vertices + ts, ..p }
            } else {
                MeshModel { normals: p.normals + ts, ..p }
            },
        ),
    decreases ls.len(),
{
    if ls.len() == 0 {
        assert(p.vertices + ts =~= p.vertices);
        assert(p.normals + ts =~= p.normals);
    } else {
        let n = ls.len() - 1;
        lemma_apply_triples(p, ls.drop_last(), name, ts.drop_last());
        assert(triple_literal(ts[n]));
        assert(ls[n].command == name);
        assert(name_v() != name_vn()) by {
            assert(name_v().len() != name_vn().len());
        }
        assert((p.vertices + ts.drop_last()).push(ts.last()) =~= p.vertices + ts);
        assert((p.normals + ts.drop_last()).push(ts.last()) =~= p.normals + ts);
    }
}

proof fn lemma_indices_text(ix: Seq<u16>)
    ensures
        indices_of(ix.map_values(|i: u16| decimal_text(i as nat))) == Some(ix),
    decreases ix.len(),
{
    let ws = ix.map_values(|i: u16| decimal_text(i as nat));
    if ix.len() == 0 {
        assert(ws.len() == 0);
    } else {
        lemma_indices_text(ix.drop_last());
        assert(ws.drop_last() =~= ix.drop_last().map_values(|i: u16| decimal_text(i as nat)));
        lemma_index_text(ix.last());
        assert(ix.drop_last().push(ix.last()) =~= ix);
    }
}

proof fn lemma_mesh_entries_ok(m: MeshModel)
    requires
        mesh_literal(m),
    ensures
        forall|i: int|
            0 <= i < mesh_entries(m).len() ==> entry_ok(#[trigger] mesh_entries(m)[i]),
{
    let es = mesh_entries(m);
    let head = seq![(name_s(), seq![m.scale])];
    let ve = triple_entries(name_v(), m.vertices);
    let ne = triple_entries(name_vn(), m.normals);
    let ws = m.indices.map_values(|i: u16| decimal_text(i as nat));
    let fl = if m.indices.len() == 0 {
        Seq::<Entry>::empty()
    } else {
        seq![(name_f(), ws)]
    };
    assert(es == head + ve + ne + fl);
    assert forall|i: int| 0 <= i < es.len() implies entry_ok(#[trigger] es[i]) by {
        let h = head.len() as int;
        let v = ve.len() as int;
        let n = ne.len() as int;
        if i < h {
            lemma_literal_plain(m.scale);
            assert(es[i] == (name_s(), seq![m.scale]));
            let a = seq![m.scale];
            assert forall|j: int| 0 <= j < a.len() implies all_plain(#[trigger] a[j]) by {
                assert(j == 0);
            }
            assert(all_plain(name_s())) by {
                assert forall|j: int| 0 <= j < name_s().len() implies is_plain(
                    #[trigger] name_s()[j],
                ) by {
                    assert(j == 0);
                }
            }
        } else if i < h + v {
            assert(es[i] == ve[i - h]);
            assert(triple_literal(m.vertices[i - h]));
            assert(all_plain(name_v())) by {
                assert forall|j: int| 0 <= j < name_v().len() implies is_plain(
                    #[trigger] name_v()[j],
                ) by {
                    assert(j == 0);
                }
            }
            lemma_triple_entry_ok(name_v(), m.vertices[i - h]);
        } else if i < h + v + n {
            assert(es[i] == ne[i - h - v]);
            assert(triple_literal(m.normals[i - h - v]));
            assert(all_plain(name_vn())) by {
                assert forall|j: int| 0 <= j < name_vn().len() implies is_plain(
                    #[trigger] name_vn()[j],
                ) by {
                    assert(j == 0 || j == 1);
                }
            }
            lemma_triple_entry_ok(name_vn(), m.normals[i - h - v]);
        } else {
            assert(es[i] == (name_f(), ws));
            assert forall|j: int| 0 <= j < ws.len() implies all_plain(#[trigger] ws[j]) by {
                crate::literal::lemma_decimal_text(m.indices[j] as nat);
                let d = ws[j];
                assert forall|k: int| 0 <= k < d.len() implies is_plain(#[trigger] d[k]) by {
                    assert(is_digit(d[k]));
                }
            }
            assert(all_plain(name_f())) by {
                assert forall|j: int| 0 <= j < name_f().len() implies is_plain(
                    #[trigger] name_f()[j],
                ) by {
                    assert(j == 0);
                }
            }
        }
    }
}

/// A mesh of literals, written out and read back, is the same mesh.
pub proof fn lemma_text_parses_back(m: MeshModel)
    requires
        mesh_literal(m),
    ensures
        parse_text(mesh_text(m)) == Ok::<MeshModel, crate::obj::ParseError>(m),
{
    let es = mesh_entries(m);
    let head = seq![(name_s(), seq![m.scale])];
    let ve = triple_entries(name_v(), m.vertices);
    let ne = triple_entries(name_vn(), m.normals);
    let ws = m.indices.map_values(|i: u16| decimal_text(i as nat));
    let fl = if m.indices.len() == 0 {
        Seq::<Entry>::empty()
    } else {
        seq![(name_f(), ws)]
    };
    assert(es == head + ve + ne + fl);
    lemma_mesh_entries_ok(m);
    lemma_run_join(scan_start(), es);
    let ls = numbered(es, 0);
    assert(lines_of(mesh_text(m)) == ls);
    let h = head.len() as int;
    let v = ve.len() as int;
    let n = ne.len() as int;
    let l0 = ls.subrange(0, h);
    let l1 = ls.subrange(h, h + v);
    let l2 = ls.subrange(h + v, h + v + n);
    let l3 = ls.subrange(h + v + n, ls.len() as int);
    assert(ls =~= l0 + l1 + l2 + l3);
    lemma_apply_append(empty_mesh(), l0 + l1 + l2, l3);
    lemma_apply_append(empty_mesh(), l0 + l1, l2);
    lemma_apply_append(empty_mesh(), l0, l1);
    // the scale line
    assert(l0.drop_last() =~= Seq::<LineModel>::empty());
    let m0 = MeshModel { scale: m.scale, ..empty_mesh() };
    lemma_kinds();
    assert(l0.len() == 1);
    assert(l0[0] == ls[0]);
    assert(es[0] == (name_s(), seq![m.scale]));
    assert(l0[0] == LineModel { number: 1, command: name_s(), args: seq![m.scale] });
    assert(apply_lines(empty_mesh(), l0.drop_last()) == Ok::<MeshModel, crate::obj::ParseError>(
        empty_mesh(),
    ));
    assert(is_float_literal(m.scale));
    assert(apply_line(empty_mesh(), l0[0]) == Ok::<MeshModel, crate::obj::ParseError>(m0));
    assert(apply_lines(empty_mesh(), l0) == Ok::<MeshModel, crate::obj::ParseError>(m0));
    // the vertex lines
    assert forall|i: int| 0 <= i < l1.len() implies (#[trigger] l1[i]).command == name_v()
        && l1[i].args == seq![m.vertices[i].0, m.vertices[i].1, m.vertices[i].2] by {
        assert(l1[i] == ls[h + i]);
        assert(es[h + i] == ve[i]);
    }
    lemma_apply_triples(m0, l1, name_v(), m.vertices);
    let m1 = MeshModel { vertices: m0.vertices + m.vertices, ..m0 };
    assert(m0.vertices + m.vertices =~= m.vertices);
    // the normal lines
    assert forall|i: int| 0 <= i < l2.len() implies (#[trigger] l2[i]).command == name_vn()
        && l2[i].args == seq![m.normals[i].0, m.normals[i].1, m.normals[i].2] by {
        assert(l2[i] == ls[h + v + i]);
        assert(es[h + v + i] == ne[i]);
    }
    lemma_apply_triples(m1, l2, name_vn(), m.normals);
    let m2 = MeshModel { normals: m1.normals + m.normals, ..m1 };
    assert(m1.normals + m.normals =~= m.normals);
    assert(apply_lines(empty_mesh(), l0 + l1) == Ok::<MeshModel, crate::obj::ParseError>(m1));
    assert(apply_lines(empty_mesh(), l0 + l1 + l2) == Ok::<MeshModel, crate::obj::ParseError>(
        m2,
    ));
    // the face line
    if m.indices.len() == 0 {
        assert(l3.len() == 0);
        assert(m2 == m) by {
            assert(m.indices =~= Seq::<u16>::empty());
        }
        assert(apply_lines(m2, l3) == Ok::<MeshModel, crate::obj::ParseError>(m2));
    } else {
        assert(l3.len() == 1);
        assert(l3.drop_last() =~= Seq::<LineModel>::empty());
        assert(l3[0] == ls[h + v + n]);
        assert(es[h + v + n] == (name_f(), ws));
        lemma_indices_text(m.indices);
        lemma_kinds();
        assert(l3[0].command == name_f() && l3[0].args == ws);
        assert(Seq::<u16>::empty() + m.indices =~= m.indices);
        assert(apply_line(m2, l3[0]) == Ok::<MeshModel, crate::obj::ParseError>(m));
        assert(apply_lines(m2, l3.drop_last()) == Ok::<MeshModel, crate::obj::ParseError>(m2));
        assert(apply_lines(m2, l3) == Ok::<MeshModel, crate::obj::ParseError>(m));
    }
}

/// Writing out a mesh that was read from an input, and reading the text
/// again, gives the same mesh.
pub proof fn lemma_round_trip(input: Seq<u8>)
    requires
        parse_text(input) is Ok,
    ensures
        parse_text(mesh_text(parse_text(input)->Ok_0)) == parse_text(input),
{
    lemma_parse_literal(input);
    lemma_text_parses_back(parse_text(input)->Ok_0);
}

/// The lines, each numbered `k` further on.
pub open spec fn shifted(ls: Seq<LineModel>, k: nat) -> Seq<LineModel> {
    ls.map_values(|l: LineModel| LineModel { number: l.number + k, ..l })
}

proof fn lemma_run_shift(s0: ScanModel, k: nat, bytes: Seq<u8>)
    ensures
        run(ScanModel { newlines: s0.newlines + k, ..s0 }, bytes) == (
            ScanModel { newlines: run(s0, bytes).0.newlines + k, ..run(s0, bytes).0 },
            shifted(run(s0, bytes).1, k),
        ),
    decreases bytes.len(),
{
    if bytes.len() == 0 {
        assert(shifted(Seq::<LineModel>::empty(), k) =~= Seq::<LineModel>::empty());
    } else {
        lemma_run_shift(s0, k, bytes.drop_last());
        let (s, out) = run(s0, bytes.drop_last());
        match step(s, bytes.last()).1 {
            Some(l) => {
                assert(shifted(out.push(l), k) =~= shifted(out, k).push(
                    LineModel { number: l.number + k, ..l },
                ));
            },
            None => {},
        }
    }
}

/// A fault with its line number left out.
pub open spec fn fault_kind(e: ParseError) -> ParseError {
    match e {
        ParseError::MalformedNumericArgument { line: _, command } => {
            ParseError::MalformedNumericArgument { line: 0, command }
        },
        ParseError::IndexOutOfRange { line: _ } => ParseError::IndexOutOfRange { line: 0 },
        ParseError::SourceRead => ParseError::SourceRead,
    }
}

/// The same mesh, or faults of the same kind.
pub open spec fn same_outcome(a: Result<MeshModel, ParseError>, b: Result<MeshModel, ParseError>) -> bool {
    match (a, b) {
        (Ok(x), Ok(y)) => x == y,
        (Err(x), Err(y)) => fault_kind(x) == fault_kind(y),
        _ => false,
    }
}

proof fn lemma_apply_shift(m: MeshModel, ls: Seq<LineModel>, k: nat)
    ensures
        same_outcome(apply_lines(m, shifted(ls, k)), apply_lines(m, ls)),
    decreases ls.len(),
{
    if ls.len() > 0 {
        lemma_apply_shift(m, ls.drop_last(), k);
        assert(shifted(ls, k).drop_last() =~= shifted(ls.drop_last(), k));
    }
}

/// A line of unknown command at the start of an input changes nothing: the
/// rest reads to the same mesh, or fails in the same way (on a line one
/// further on).
pub proof fn lemma_unsupported_line_skipped(command: Seq<u8>, args: Seq<Seq<u8>>, rest: Seq<u8>)
    requires
        entry_ok((command, args)),
        kind_of(command) == CommandKind::Unsupported,
    ensures
        same_outcome(parse_text(line_text((command, args)) + rest), parse_text(rest)),
{
    let e = (command, args);
    let lt = line_text(e);
    lemma_run_line(scan_start(), e);
    lemma_run_append(scan_start(), lt, rest);
    let one = ScanModel { newlines: 1, ..scan_start() };
    assert(one == ScanModel { newlines: scan_start().newlines + 1, ..scan_start() });
    lemma_run_shift(scan_start(), 1, rest);
    let first = seq![LineModel { number: 1, command, args }];
    let later = shifted(lines_of(rest), 1);
    assert(lines_of(lt + rest) == first + later);
    lemma_apply_append(empty_mesh(), first, later);
    assert(first.drop_last() =~= Seq::<LineModel>::empty());
    assert(apply_lines(empty_mesh(), first.drop_last()) == Ok::<MeshModel, ParseError>(
        empty_mesh(),
    ));
    assert(first.last().command == command);
    assert(apply_line(empty_mesh(), first.last()) == Ok::<MeshModel, ParseError>(empty_mesh()));
    assert(apply_lines(empty_mesh(), first) == Ok::<MeshModel, ParseError>(empty_mesh()));
    lemma_apply_shift(empty_mesh(), lines_of(rest), 1);
}

} // verus!
