//! The line dispatcher and the reader of a whole input.

use vstd::prelude::*;
use crate::literal::{index_value, is_float_literal, parse_index};
use crate::model::{
    empty_mesh, triple_view, zero_text, MeshModel, Model, Normal, Number, Triple, Vertex,
};
use crate::scan::{
    lemma_run_newlines, lines_of, lines_view, run, scan_start, Line, LineModel, Scanner,
};

verus! {

/// The five kinds of line.
#[derive(Clone, Copy, Debug, PartialEq, Eq, Structural)]
pub enum CommandKind {
    Vertex,
    Normal,
    Face,
    Scale,
    Unsupported,
}

/// A fatal fault in the input; no mesh is returned with it.
#[derive(Clone, Copy, Debug, PartialEq, Eq, Structural)]
pub enum ParseError {
    /// A `v`, `vn` or `s` line (`command` tells which) lacks an argument or
    /// has one that is no number.
    MalformedNumericArgument { line: usize, command: CommandKind },
    /// An `f` line has an argument that is no index in `0..=65535`.
    IndexOutOfRange { line: usize },
    /// The bytes could not be read.
    SourceRead,
}

pub open spec fn kind_of(name: Seq<u8>) -> CommandKind {
    if name == seq![118u8] {
        CommandKind::Vertex
    } else if name == seq![118u8, 110] {
        CommandKind::Normal
    } else if name == seq![102u8] {
        CommandKind::Face
    } else if name == seq![115u8] {
        CommandKind::Scale
    } else {
        CommandKind::Unsupported
    }
}

/// The kind of line that a command name starts.
pub fn classify(name: &[u8]) -> (r: CommandKind)
    ensures
        r == kind_of(name@),
{
    if name.len() == 1 && name[0] == 118 {
        assert(name@ =~= seq![118u8]);
        CommandKind::Vertex
    } else if name.len() == 2 && name[0] == 118 && name[1] == 110 {
        assert(name@ =~= seq![118u8, 110]);
        CommandKind::Normal
    } else if name.len() == 1 && name[0] == 102 {
        assert(name@ =~= seq![102u8]);
        CommandKind::Face
    } else if name.len() == 1 && name[0] == 115 {
        assert(name@ =~= seq![115u8]);
        CommandKind::Scale
    } else {
        assert(name@ != seq![118u8] && name@ != seq![118u8, 110] && name@ != seq![102u8]
            && name@ != seq![115u8]) by {
            if name.len() == 1 {
                assert(name@[0] != seq![118u8][0]);
                assert(name@[0] != seq![102u8][0]);
                assert(name@[0] != seq![115u8][0]);
            }
            if name.len() == 2 {
                assert(name@[0] != 118 || name@[1] != 110);
                assert(name@ != seq![118u8, 110] || (name@[0] == 118 && name@[1] == 110));
            }
        }
        CommandKind::Unsupported
    }
}

/// The three coordinates that a `v` or `vn` line gives: its first three
/// arguments, each a floating-point literal; further ones are not read.
pub open spec fn triple_of(args: Seq<Seq<u8>>) -> Option<Triple> {
    if args.len() >= 3 && is_float_literal(args[0]) && is_float_literal(args[1])
        && is_float_literal(args[2]) {
        Some((args[0], args[1], args[2]))
    } else {
        None
    }
}

/// The indices that an `f` line gives, all of its arguments in order.
pub open spec fn indices_of(args: Seq<Seq<u8>>) -> Option<Seq<u16>>
    decreases args.len(),
{
    if args.len() == 0 {
        Some(seq![])
    } else {
        match (indices_of(args.drop_last()), index_value(args.last())) {
            (Some(p), Some(i)) => Some(p.push(i)),
            _ => None,
        }
    }
}

/// What one line does to the mesh.
pub open spec fn apply_line(m: MeshModel, l: LineModel) -> Result<MeshModel, ParseError> {
    let line = l.number as usize;
    match kind_of(l.command) {
        CommandKind::Vertex => match triple_of(l.args) {
            Some(t) => Ok(MeshModel { vertices: m.vertices.push(t), ..m }),
            None => Err(ParseError::MalformedNumericArgument { line, command: CommandKind::Vertex }),
        },
        CommandKind::Normal => match triple_of(l.args) {
            Some(t) => Ok(MeshModel { normals: m.normals.push(t), ..m }),
            None => Err(ParseError::MalformedNumericArgument { line, command: CommandKind::Normal }),
        },
        CommandKind::Face => match indices_of(l.args) {
            Some(ix) => Ok(MeshModel { indices: m.indices + ix, ..m }),
            None => Err(ParseError::IndexOutOfRange { line }),
        },
        CommandKind::Scale => if l.args.len() >= 1 && is_float_literal(l.args[0]) {
            Ok(MeshModel { scale: l.args[0], ..m })
        } else {
            Err(ParseError::MalformedNumericArgument { line, command: CommandKind::Scale })
        },
        CommandKind::Unsupported => Ok(m),
    }
}

/// Lines applied in order; the first fault ends the reading.
pub open spec fn apply_lines(m: MeshModel, lines: Seq<LineModel>) -> Result<MeshModel, ParseError>
    decreases lines.len(),
{
    if lines.len() == 0 {
        Ok(m)
    } else {
        match apply_lines(m, lines.drop_last()) {
            Ok(p) => apply_line(p, lines.last()),
            Err(e) => Err(e),
        }
    }
}

/// The mesh that a whole input describes, or its first fault.
pub open spec fn parse_text(bytes: Seq<u8>) -> Result<MeshModel, ParseError> {
    apply_lines(empty_mesh(), lines_of(bytes))
}

pub proof fn lemma_apply_append(m: MeshModel, a: Seq<LineModel>, b: Seq<LineModel>)
    ensures
        apply_lines(m, a + b) == match apply_lines(m, a) {
            Ok(p) => apply_lines(p, b),
            Err(e) => Err(e),
        },
    decreases b.len(),
{
    if b.len() == 0 {
        assert(a + b =~= a);
    } else {
        assert((a + b).drop_last() =~= a + b.drop_last());
        lemma_apply_append(m, a, b.drop_last());
    }
}

fn triple_from(args: &Vec<Vec<u8>>) -> (r: Option<(Number, Number, Number)>)
    ensures
        match triple_of(crate::scan::args_view(args@)) {
            Some(t) => r matches Some(n) && crate::model::triple_view(n) == t,
            None => r is None,
        },
{
    if args.len() < 3 {
        return None;
    }
    let x = Number::from_text(args[0].as_slice());
    let y = Number::from_text(args[1].as_slice());
    let z = Number::from_text(args[2].as_slice());
    match (x, y, z) {
        (Some(x), Some(y), Some(z)) => Some((x, y, z)),
        _ => None,
    }
}

fn indices_from(args: &Vec<Vec<u8>>) -> (r: Option<Vec<u16>>)
    ensures
        match indices_of(crate::scan::args_view(args@)) {
            Some(ix) => r matches Some(v) && v@ == ix,
            None => r is None,
        },
{
    let ghost a = crate::scan::args_view(args@);
    let mut out: Vec<u16> = Vec::new();
    let mut i: usize = 0;
    while i < args.len()
        invariant
            i <= args.len(),
            a == crate::scan::args_view(args@),
            indices_of(a.take(i as int)) == Some(out@),
        decreases args.len() - i,
    {
        assert(a.take(i + 1).drop_last() =~= a.take(i as int));
        match parse_index(args[i].as_slice()) {
            Some(ix) => {
                out.push(ix);
            },
            None => {
                proof {
                    lemma_indices_extend(a, i as int + 1);
                }
                return None;
            },
        }
        i = i + 1;
    }
    assert(a.take(i as int) =~= a);
    Some(out)
}

proof fn lemma_indices_extend(a: Seq<Seq<u8>>, k: int)
    requires
        0 <= k <= a.len(),
        indices_of(a.take(k)) is None,
    ensures
        indices_of(a) is None,
    decreases a.len() - k,
{
    if k < a.len() {
        assert(a.take(k + 1).drop_last() =~= a.take(k));
        lemma_indices_extend(a, k + 1);
    } else {
        assert(a.take(k) =~= a);
    }
}

impl Model {
    /// Applies one line. On a fault the mesh is left as it was.
    pub fn apply(&mut self, line: &Line) -> (r: Result<(), ParseError>)
        ensures
            match apply_line(old(self)@, line@) {
                Ok(m) => r is Ok && final(self)@ == m,
                Err(e) => r == Err::<(), ParseError>(e) && final(self)@ == old(self)@,
            },
            final(self).tex_path == old(self).tex_path,
            triple_view(final(self).position) == triple_view(old(self).position),
    {
        let number = line.number;
        match classify(line.command.as_slice()) {
            CommandKind::Vertex => match triple_from(&line.args) {
                Some(t) => {
                    self.vertices.push(Vertex { position: t });
                    assert(final(self)@.vertices =~= old(self)@.vertices.push(
                        crate::model::triple_view(t),
                    ));
                    Ok(())
                },
                None => Err(ParseError::MalformedNumericArgument { line: number, command: CommandKind::Vertex }),
            },
            CommandKind::Normal => match triple_from(&line.args) {
                Some(t) => {
                    self.normals.push(Normal { normal: t });
                    assert(final(self)@.normals =~= old(self)@.normals.push(
                        crate::model::triple_view(t),
                    ));
                    Ok(())
                },
                None => Err(ParseError::MalformedNumericArgument { line: number, command: CommandKind::Normal }),
            },
            CommandKind::Face => match indices_from(&line.args) {
                Some(mut ix) => {
                    self.indices.append(&mut ix);
                    Ok(())
                },
                None => Err(ParseError::IndexOutOfRange { line: number }),
            },
            CommandKind::Scale => {
                if line.args.len() >= 1 {
                    match Number::from_text(line.args[0].as_slice()) {
                        Some(n) => {
                            self.scale = n;
                            Ok(())
                        },
                        None => Err(
                            ParseError::MalformedNumericArgument { line: number, command: CommandKind::Scale },
                        ),
                    }
                } else {
                    Err(ParseError::MalformedNumericArgument { line: number, command: CommandKind::Scale })
                }
            },
            CommandKind::Unsupported => Ok(()),
        }
    }
}

/// How many of the lines are of one kind.
pub open spec fn count_kind(lines: Seq<LineModel>, k: CommandKind) -> nat
    decreases lines.len(),
{
    if lines.len() == 0 {
        0
    } else {
        count_kind(lines.drop_last(), k) + if kind_of(lines.last().command) == k {
            1nat
        } else {
            0nat
        }
    }
}

proof fn lemma_apply_counts(lines: Seq<LineModel>)
    requires
        apply_lines(empty_mesh(), lines) is Ok,
    ensures
        apply_lines(empty_mesh(), lines)->Ok_0.vertices.len() == count_kind(
            lines,
            CommandKind::Vertex,
        ),
        apply_lines(empty_mesh(), lines)->Ok_0.normals.len() == count_kind(
            lines,
            CommandKind::Normal,
        ),
    decreases lines.len(),
{
    if lines.len() > 0 {
        lemma_apply_counts(lines.drop_last());
    }
}

/// An input with no `vn` line declares no normals, and yields one vertex for
/// each `v` line; [`ObjModel::parse`] then makes one normal for each of them.
pub proof fn lemma_vertices_without_normals(input: Seq<u8>)
    requires
        parse_text(input) is Ok,
        count_kind(lines_of(input), CommandKind::Normal) == 0,
    ensures
        parse_text(input)->Ok_0.normals.len() == 0,
        parse_text(input)->Ok_0.vertices.len() == count_kind(
            lines_of(input),
            CommandKind::Vertex,
        ),
{
    lemma_apply_counts(lines_of(input));
}

impl Model {
    /// Where the mesh has no normals, gives each vertex, in order, the normal
    /// that `placeholder` makes of it; a mesh with normals is left as it is.
    pub fn fill_normals<F: Fn(&Vertex) -> Normal>(&mut self, placeholder: F)
        requires
            forall|v: &Vertex| #[trigger] placeholder.requires((v,)),
        ensures
            final(self).vertices@ == old(self).vertices@,
            final(self).indices@ == old(self).indices@,
            final(self).scale@ == old(self).scale@,
            final(self).tex_path == old(self).tex_path,
            triple_view(final(self).position) == triple_view(old(self).position),
            old(self).normals.len() > 0 ==> final(self).normals@ == old(self).normals@,
            old(self).normals.len() == 0 ==> {
                &&& final(self).normals.len() == final(self).vertices.len()
                &&& forall|i: int|
                    0 <= i < final(self).normals.len() ==> placeholder.ensures(
                        (&final(self).vertices@[i],),
                        #[trigger] final(self).normals@[i],
                    )
            },
    {
        if self.normals.len() > 0 {
            return;
        }
        let mut normals: Vec<Normal> = Vec::new();
        let mut i: usize = 0;
        while i < self.vertices.len()
            invariant
                i <= self.vertices.len(),
                normals.len() == i,
                forall|v: &Vertex| #[trigger] placeholder.requires((v,)),
                forall|j: int|
                    0 <= j < i ==> placeholder.ensures(
                        (&self.vertices@[j],),
                        #[trigger] normals@[j],
                    ),
            decreases self.vertices.len() - i,
        {
            let n = placeholder(&self.vertices[i]);
            normals.push(n);
            i = i + 1;
        }
        self.normals = normals;
    }
}

/// Once an input has a fault, nothing that follows it changes the outcome.
pub proof fn lemma_fault_stays(a: Seq<u8>, b: Seq<u8>)
    requires
        parse_text(a) is Err,
    ensures
        parse_text(a + b) == parse_text(a),
{
    crate::scan::lemma_run_append(scan_start(), a, b);
    lemma_apply_append(empty_mesh(), lines_of(a), run(run(scan_start(), a).0, b).1);
}

/// The lines of unknown command among `lines`, in order.
pub open spec fn unsupported_lines(lines: Seq<LineModel>) -> Seq<LineModel>
    decreases lines.len(),
{
    if lines.len() == 0 {
        seq![]
    } else if kind_of(lines.last().command) == CommandKind::Unsupported {
        unsupported_lines(lines.drop_last()).push(lines.last())
    } else {
        unsupported_lines(lines.drop_last())
    }
}

/// `model` is the mesh `m` with its normals made complete: the vertices,
/// indices and scale of `m`; its declared normals where it has any, else
/// the one that `placeholder` makes of each vertex.
pub open spec fn completes<F: Fn(&Vertex) -> Normal>(m: MeshModel, model: Model, placeholder: F) -> bool {
    &&& model@.vertices == m.vertices
    &&& model@.indices == m.indices
    &&& model@.scale == m.scale
    &&& m.normals.len() > 0 ==> model@.normals == m.normals
    &&& m.normals.len() == 0 ==> {
        &&& model.normals.len() == model.vertices.len()
        &&& forall|i: int|
            0 <= i < model.normals.len() ==> placeholder.ensures(
                (&model.vertices@[i],),
                #[trigger] model.normals@[i],
            )
    }
}

/// What [`ObjModel::parse`] returns for an input with no `vn` line has one
/// normal for each vertex, and one vertex for each `v` line.
pub proof fn lemma_one_normal_per_vertex<F: Fn(&Vertex) -> Normal>(
    input: Seq<u8>,
    model: Model,
    placeholder: F,
)
    requires
        parse_text(input) is Ok,
        count_kind(lines_of(input), CommandKind::Normal) == 0,
        completes(parse_text(input)->Ok_0, model, placeholder),
    ensures
        model.normals.len() == model.vertices.len(),
        model.vertices.len() == count_kind(lines_of(input), CommandKind::Vertex),
{
    lemma_vertices_without_normals(input);
    assert(model.vertices@.map_values(|v: Vertex| v@).len() == model.vertices@.len());
}

/// A reader that takes the input a piece at a time. The caller may stop
/// feeding it at any point, and so abandon the reading.
pub struct MeshReader {
    scanner: Scanner,
    model: Model,
    unsupported: Vec<Line>,
    consumed: Ghost<Seq<u8>>,
}

impl View for MeshReader {
    type V = Seq<u8>;

    /// The bytes fed so far.
    closed spec fn view(&self) -> Seq<u8> {
        self.consumed@
    }
}

impl MeshReader {
    /// The bytes fed so far hold no fault, and the mesh is what they describe.
    pub closed spec fn wf(&self) -> bool {
        &&& self.scanner@ == run(scan_start(), self.consumed@).0
        &&& parse_text(self.consumed@) == Ok::<MeshModel, ParseError>(self.model@)
        &&& self.model.tex_path is None
        &&& triple_view(self.model.position) == (zero_text(), zero_text(), zero_text())
        &&& lines_view(self.unsupported@) == unsupported_lines(lines_of(self.consumed@))
    }

    pub fn new() -> (r: MeshReader)
        ensures
            r.wf(),
            r@ == Seq::<u8>::empty(),
    {
        let r = MeshReader {
            scanner: Scanner::new(),
            model: Model::new(),
            unsupported: Vec::new(),
            consumed: Ghost(Seq::empty()),
        };
        assert(lines_view(r.unsupported@) =~= Seq::<LineModel>::empty());
        r
    }

    /// Takes the next bytes of the input.
    pub fn feed(&mut self, bytes: &[u8]) -> (r: Result<(), ParseError>)
        requires
            old(self).wf(),
            old(self)@.len() + bytes@.len() <= usize::MAX,
        ensures
            final(self)@ == old(self)@ + bytes@,
            match parse_text(final(self)@) {
                Ok(_) => r is Ok && final(self).wf(),
                Err(e) => r == Err::<(), ParseError>(e),
            },
    {
        let ghost start = self.consumed@;
        let mut i: usize = 0;
        while i < bytes.len()
            invariant
                i <= bytes.len(),
                start.len() + bytes@.len() <= usize::MAX,
                start == old(self)@,
                self.consumed@ == start + bytes@.take(i as int),
                self.wf(),
            decreases bytes.len() - i,
        {
            let ghost prev = self.consumed@;
            proof {
                lemma_run_newlines(scan_start(), prev);
            }
            let ghost before = run(scan_start(), prev).1;
            let ghost noted = self.unsupported@;
            let line = self.scanner.feed(bytes[i]);
            self.consumed = Ghost(prev.push(bytes@[i as int]));
            assert(self.consumed@.drop_last() =~= prev);
            assert(start + bytes@.take(i + 1) =~= prev.push(bytes@[i as int]));
            match line {
                Some(l) => {
                    assert(before.push(l@).drop_last() =~= before);
                    match self.model.apply(&l) {
                        Ok(()) => {
                            if classify(l.command.as_slice()) == CommandKind::Unsupported {
                                self.unsupported.push(l);
                                assert(lines_view(self.unsupported@) =~= lines_view(noted).push(
                                    l@,
                                ));
                            }
                        },
                        Err(e) => {
                            let ghost now = self.consumed@;
                            self.consumed = Ghost(start + bytes@);
                            proof {
                                let rest = bytes@.skip(i + 1);
                                assert(start + bytes@ =~= now + rest);
                                lemma_fault_stays(now, rest);
                            }
                            return Err(e);
                        },
                    }
                },
                None => {},
            }
            i = i + 1;
        }
        assert(bytes@.take(i as int) =~= bytes@);
        Ok(())
    }

    /// The lines of unknown command met so far, in order. They change
    /// nothing; a caller may report them.
    pub fn unsupported(&self) -> (r: &Vec<Line>)
        requires
            self.wf(),
        ensures
            lines_view(r@) == unsupported_lines(lines_of(self@)),
    {
        &self.unsupported
    }

    /// The mesh that the bytes fed so far describe. Where they declare no
    /// normal, each vertex gets the one that `placeholder` makes of it.
    pub fn finish<F: Fn(&Vertex) -> Normal>(self, placeholder: F) -> (r: Model)
        requires
            self.wf(),
            forall|v: &Vertex| #[trigger] placeholder.requires((v,)),
        ensures
            parse_text(self@) matches Ok(m) && completes(m, r, placeholder),
            r.tex_path is None,
            triple_view(r.position) == (zero_text(), zero_text(), zero_text()),
    {
        let mut model = self.model;
        model.fill_normals(placeholder);
        model
    }
}

/// The reader of the geometry format.
#[derive(Clone, Copy, Debug)]
pub struct ObjModel {}

impl ObjModel {
    /// Reads a mesh from the bytes of an input. Lines are applied in order and
    /// the first fault ends the reading; a last line without a line end is not
    /// read. Where the input declares no normal, each vertex gets the one that
    /// `placeholder` makes of it, so that there is one normal per vertex.
    pub fn parse<F: Fn(&Vertex) -> Normal>(input: &[u8], placeholder: F) -> (r: Result<
        Model,
        ParseError,
    >)
        requires
            forall|v: &Vertex| #[trigger] placeholder.requires((v,)),
        ensures
            match parse_text(input@) {
                Ok(m) => r matches Ok(model) && completes(m, model, placeholder)
                    && model.tex_path is None && triple_view(model.position) == (
                    zero_text(),
                    zero_text(),
                    zero_text(),
                ),
                Err(e) => r == Err::<Model, ParseError>(e),
            },
    {
        let mut reader = MeshReader::new();
        assert(Seq::<u8>::empty() + input@ =~= input@);
        assert(input@.len() == input.len());
        match reader.feed(input) {
            Ok(()) => Ok(reader.finish(placeholder)),
            Err(e) => Err(e),
        }
    }
}

} // verus!
