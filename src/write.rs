//! Writing a mesh back in the geometry format.

use vstd::prelude::*;
use crate::literal::{decimal_text, write_index};
use crate::model::{MeshModel, Model, Triple};
use crate::scan::{NEWLINE, SPACE};

verus! {

/// A line to write: its command name and its arguments.
pub type Entry = (Seq<u8>, Seq<Seq<u8>>);

/// The arguments, each after one space.
pub open spec fn words(args: Seq<Seq<u8>>) -> Seq<u8>
    decreases args.len(),
{
    if args.len() == 0 {
        seq![]
    } else {
        words(args.drop_last()) + seq![SPACE] + args.last()
    }
}

pub proof fn lemma_words_one(a: Seq<u8>)
    ensures
        words(seq![a]) == seq![SPACE] + a,
{
    let s = seq![a];
    assert(s.drop_last() =~= Seq::<Seq<u8>>::empty());
    assert(words(s.drop_last()) =~= Seq::<u8>::empty());
    assert(s.last() == a);
    assert(words(s) =~= seq![SPACE] + a);
}

pub open spec fn line_text(e: Entry) -> Seq<u8> {
    e.0 + words(e.1) + seq![NEWLINE]
}

pub open spec fn join_lines(es: Seq<Entry>) -> Seq<u8>
    decreases es.len(),
{
    if es.len() == 0 {
        seq![]
    } else {
        join_lines(es.drop_last()) + line_text(es.last())
    }
}

pub open spec fn name_v() -> Seq<u8> {
    seq![118u8]
}

pub open spec fn name_vn() -> Seq<u8> {
    seq![118u8, 110]
}

pub open spec fn name_f() -> Seq<u8> {
    seq![102u8]
}

pub open spec fn name_s() -> Seq<u8> {
    seq![115u8]
}

pub open spec fn triple_entries(name: Seq<u8>, ts: Seq<Triple>) -> Seq<Entry> {
    ts.map_values(|t: Triple| (name, seq![t.0, t.1, t.2]))
}

/// The lines that describe a mesh: its scale, its vertices, its normals,
/// and its indices on one face line where there are any.
pub open spec fn mesh_entries(m: MeshModel) -> Seq<Entry> {
    seq![(name_s(), seq![m.scale])] + triple_entries(name_v(), m.vertices) + triple_entries(
        name_vn(),
        m.normals,
    ) + if m.indices.len() == 0 {
        Seq::<Entry>::empty()
    } else {
        seq![(name_f(), m.indices.map_values(|i: u16| decimal_text(i as nat)))]
    }
}

pub open spec fn mesh_text(m: MeshModel) -> Seq<u8> {
    join_lines(mesh_entries(m))
}

fn push_bytes(out: &mut Vec<u8>, s: &[u8])
    ensures
        final(out)@ == old(out)@ + s@,
{
    let mut i: usize = 0;
    while i < s.len()
        invariant
            i <= s.len(),
            out@ == old(out)@ + s@.take(i as int),
        decreases s.len() - i,
    {
        out.push(s[i]);
        i = i + 1;
        assert(out@ =~= old(out)@ + s@.take(i as int));
    }
    assert(s@.take(i as int) =~= s@);
}

fn push_triple_line(out: &mut Vec<u8>, name: &Vec<u8>, x: &[u8], y: &[u8], z: &[u8])
    ensures
        final(out)@ == old(out)@ + line_text((name@, seq![x@, y@, z@])),
{
    push_bytes(out, name.as_slice());
    out.push(SPACE);
    push_bytes(out, x);
    out.push(SPACE);
    push_bytes(out, y);
    out.push(SPACE);
    push_bytes(out, z);
    out.push(NEWLINE);
    let ghost args = seq![x@, y@, z@];
    assert(args.drop_last().drop_last().drop_last() =~= Seq::<Seq<u8>>::empty());
    assert(args.drop_last().drop_last() =~= seq![x@]);
    assert(args.drop_last() =~= seq![x@, y@]);
    proof {
        lemma_words_one(x@);
    }
    assert(words(seq![x@, y@]) =~= seq![SPACE] + x@ + seq![SPACE] + y@);
    assert(words(args) =~= seq![SPACE] + x@ + seq![SPACE] + y@ + seq![SPACE] + z@);
    assert(out@ =~= old(out)@ + line_text((name@, args)));
}

proof fn lemma_entries_push(a: Seq<Entry>, b: Seq<Entry>, i: int)
    requires
        0 <= i < b.len(),
    ensures
        join_lines(a + b.take(i + 1)) == join_lines(a + b.take(i)) + line_text(b[i]),
{
    assert((a + b.take(i + 1)).drop_last() =~= a + b.take(i));
}

impl Model {
    /// The mesh in the geometry format: one `s` line, a `v` line for each
    /// vertex, a `vn` line for each normal, and one `f` line with every index.
    pub fn to_text(&self) -> (r: Vec<u8>)
        ensures
            r@ == mesh_text(self@),
    {
        let ghost m = self@;
        let ghost head = seq![(name_s(), seq![m.scale])];
        let ghost ve = triple_entries(name_v(), m.vertices);
        let ghost ne = triple_entries(name_vn(), m.normals);
        let mut out: Vec<u8> = Vec::new();
        out.push(115u8);
        out.push(SPACE);
        push_bytes(&mut out, self.scale.text());
        out.push(NEWLINE);
        assert(seq![m.scale].drop_last() =~= Seq::<Seq<u8>>::empty());
        assert(head.drop_last() =~= Seq::<Entry>::empty());
        proof {
            lemma_words_one(m.scale);
        }
        assert(join_lines(head) =~= join_lines(head.drop_last()) + line_text(head.last()));
        assert(out@ =~= join_lines(head));
        let v_name = vec![118u8];
        assert(v_name@ =~= name_v());
        let mut i: usize = 0;
        while i < self.vertices.len()
            invariant
                i <= self.vertices.len(),
                m == self@,
                v_name@ == name_v(),
                ve == triple_entries(name_v(), m.vertices),
                out@ == join_lines(head + ve.take(i as int)),
            decreases self.vertices.len() - i,
        {
            let p = &self.vertices[i].position;
            push_triple_line(&mut out, &v_name, p.0.text(), p.1.text(), p.2.text());
            proof {
                lemma_entries_push(head, ve, i as int);
            }
            i = i + 1;
        }
        assert(ve.take(i as int) =~= ve);
        let vn_name = vec![118u8, 110];
        assert(vn_name@ =~= name_vn());
        let mut j: usize = 0;
        while j < self.normals.len()
            invariant
                j <= self.normals.len(),
                m == self@,
                vn_name@ == name_vn(),
                ne == triple_entries(name_vn(), m.normals),
                out@ == join_lines((head + ve) + ne.take(j as int)),
            decreases self.normals.len() - j,
        {
            let p = &self.normals[j].normal;
            push_triple_line(&mut out, &vn_name, p.0.text(), p.1.text(), p.2.text());
            proof {
                lemma_entries_push(head + ve, ne, j as int);
            }
            j = j + 1;
        }
        assert(ne.take(j as int) =~= ne);
        if self.indices.len() > 0 {
            let ghost before = out@;
            let ghost ws = m.indices.map_values(|i: u16| decimal_text(i as nat));
            out.push(102u8);
            let mut k: usize = 0;
            while k < self.indices.len()
                invariant
                    k <= self.indices.len(),
                    m == self@,
                    ws == m.indices.map_values(|i: u16| decimal_text(i as nat)),
                    out@ == before + name_f() + words(ws.take(k as int)),
                decreases self.indices.len() - k,
            {
                out.push(SPACE);
                write_index(self.indices[k], &mut out);
                assert(ws.take(k + 1).drop_last() =~= ws.take(k as int));
                assert(out@ =~= before + name_f() + words(ws.take(k + 1)));
                k = k + 1;
            }
            out.push(NEWLINE);
            assert(ws.take(k as int) =~= ws);
            let ghost all = (head + ve) + ne;
            let ghost fl = seq![(name_f(), ws)];
            assert((all + fl).drop_last() =~= all);
            assert(mesh_entries(m) =~= all + fl);
            assert(out@ =~= join_lines(all + fl));
        } else {
            assert(mesh_entries(m) =~= (head + ve) + ne);
        }
        out
    }
}

} // verus!
