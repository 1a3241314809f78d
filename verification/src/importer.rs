//! The importer: gathers the instructions of a program and the modules it
//! imports, depth first, each module once.
//!
//! Reading files is left to the caller: the importer says which module it
//! needs next, and the caller hands over that module's source text.

use vstd::prelude::*;
use crate::ast::{Instruction, InstructionKind, InstV, KindV, insts_view, kind_with_prefix};
use crate::error::Error;
use crate::lexer::spec_lex;
use crate::grammar::spec_parse;
use crate::parser::parse_source;
use crate::strmap::StrSet;

verus! {

/// The view of a module being read: its instructions still to place, the
/// next one last, and the prefix its names get.
pub struct FrameV {
    pub rem: Seq<InstV>,
    pub prefix: Option<Seq<char>>,
}

/// The view of the importer.
pub struct IState {
    /// The instructions placed so far.
    pub program: Seq<InstV>,
    /// The canonical texts of the paths of the modules requested so far.
    pub parsed: Set<Seq<char>>,
    /// The modules being read, the innermost last.
    pub stack: Seq<FrameV>,
    /// The prefix of the module whose source is awaited, if one is.
    pub pending: Option<Option<Seq<char>>>,
}

/// What the importer needs next.
#[derive(Debug)]
pub enum ImportAction {
    /// The source text of the module at this path.
    Load(String),
    /// Nothing: the program is complete.
    Done,
}

/// The canonical text so far, `out`, with the path part `part` added: an
/// empty part (from a repeated or trailing `/`) adds nothing, nor does a
/// `.` part other than the first part of a path without a root.
pub open spec fn add_part(out: Seq<char>, part: Seq<char>, first: bool) -> Seq<char> {
    if part.len() == 0 {
        out
    } else if part == seq!['.'] && !first {
        out
    } else if out.len() == 0 {
        part
    } else if out == seq!['/'] {
        out + part
    } else {
        out + seq!['/'] + part
    }
}

/// The canonical text of `s` from index `i` on, after the part `part`
/// read so far, with `out` the canonical text before it and `first` telling
/// whether `part` is the first part of a path without a root.
pub open spec fn canon_scan(s: Seq<char>, i: int, part: Seq<char>, out: Seq<char>, first: bool) -> Seq<char>
    decreases s.len() - i,
{
    if i >= s.len() || i < 0 {
        add_part(out, part, first)
    } else if s[i] == '/' {
        canon_scan(s, i + 1, Seq::empty(), add_part(out, part, first), false)
    } else {
        canon_scan(s, i + 1, part.push(s[i]), out, first)
    }
}

/// The canonical text of the path `s`, which two paths share exactly when
/// they have the same components: a leading `/` for a root, then the parts
/// joined by `/`, with empty parts and `.` parts dropped but for a leading
/// `.` of a path without a root.
pub open spec fn path_canon(s: Seq<char>) -> Seq<char> {
    if s.len() > 0 && s[0] == '/' {
        canon_scan(s, 1, Seq::empty(), seq!['/'], false)
    } else {
        canon_scan(s, 0, Seq::empty(), Seq::empty(), true)
    }
}

fn add_part_exec(out: &mut Vec<char>, part: &Vec<char>, first: bool)
    ensures
        final(out)@ == add_part(old(out)@, part@, first),
{
    if part.len() == 0 {
        return;
    }
    if part.len() == 1 && part[0] == '.' && !first {
        assert(part@ == seq!['.']);
        return;
    }
    proof {
        if part@ == seq!['.'] {
            assert(part@[0] == '.');
        }
    }
    if out.len() == 0 {
        let mut i: usize = 0;
        while i < part.len()
            invariant
                i <= part.len(),
                out@ == part@.subrange(0, i as int),
            decreases part.len() - i,
        {
            out.push(part[i]);
            assert(part@.subrange(0, i + 1) == part@.subrange(0, i as int).push(part@[i as int]));
            i = i + 1;
        }
        assert(part@.subrange(0, part.len() as int) == part@);
        return;
    }
    let root_only = out.len() == 1 && out[0] == '/';
    proof {
        if out@ == seq!['/'] {
            assert(out@[0] == '/');
        }
        if root_only {
            assert(out@ =~= seq!['/']);
        }
    }
    let ghost base = if root_only { out@ } else { out@ + seq!['/'] };
    if !root_only {
        out.push('/');
    }
    assert(out@ == base);
    let mut i: usize = 0;
    while i < part.len()
        invariant
            i <= part.len(),
            out@ == base + part@.subrange(0, i as int),
        decreases part.len() - i,
    {
        out.push(part[i]);
        assert(part@.subrange(0, i + 1) == part@.subrange(0, i as int).push(part@[i as int]));
        assert(out@ =~= base + part@.subrange(0, i + 1));
        i = i + 1;
    }
    assert(part@.subrange(0, part.len() as int) == part@);
}

/// The canonical text of the path `path` (see [`path_canon`]).
pub fn canonical_path(path: &str) -> (c: String)
    ensures
        c@ == path_canon(path@),
{
    let s = crate::text::chars_of(path);
    let mut out: Vec<char> = Vec::new();
    let mut first = true;
    let mut i: usize = 0;
    if s.len() > 0 && s[0] == '/' {
        out.push('/');
        first = false;
        i = 1;
    }
    assert(out@ =~= (if s@.len() > 0 && s@[0] == '/' { seq!['/'] } else { Seq::empty() }));
    let mut part: Vec<char> = Vec::new();
    assert(part@ =~= Seq::<char>::empty());
    while i < s.len()
        invariant
            s@ == path@,
            i <= s.len(),
            path_canon(path@) == canon_scan(s@, i as int, part@, out@, first),
        decreases s.len() - i,
    {
        if s[i] == '/' {
            add_part_exec(&mut out, &part, first);
            part = Vec::new();
            assert(part@ =~= Seq::<char>::empty());
            first = false;
        } else {
            part.push(s[i]);
        }
        i = i + 1;
    }
    add_part_exec(&mut out, &part, first);
    crate::text::string_of_range(&out, 0, out.len())
}

/// The amount of work left in the modules being read.
pub open spec fn work(stack: Seq<FrameV>) -> nat
    decreases stack.len(),
{
    if stack.len() == 0 {
        0
    } else {
        work(stack.drop_last()) + stack.last().rem.len() + 1
    }
}

/// The instruction `inst` placed in a module with prefix `prefix`.
pub open spec fn placed(inst: InstV, prefix: Option<Seq<char>>) -> InstV {
    match prefix {
        Some(p) => InstV { kind: kind_with_prefix(inst.kind, p), line: inst.line },
        None => inst,
    }
}

/// Goes on reading modules: instructions other than imports are placed
/// (with the module's prefix, if any); an import of a module not yet
/// requested stops with a request for it; an import of one already
/// requested (a path with the same components) is skipped; a finished
/// module is left.
pub open spec fn drain(st: IState) -> (Option<Seq<char>>, IState)
    decreases work(st.stack),
{
    if st.stack.len() == 0 {
        (None, st)
    } else {
        let top = st.stack.last();
        if top.rem.len() == 0 {
            drain(IState { stack: st.stack.drop_last(), ..st })
        } else {
            let inst = top.rem.last();
            let rest = st.stack.drop_last().push(FrameV { rem: top.rem.drop_last(), prefix: top.prefix });
            proof {
                assert(rest.drop_last() == st.stack.drop_last());
            }
            match inst.kind {
                KindV::Import { alias, path } => {
                    if st.parsed.contains(path_canon(path)) {
                        drain(IState { stack: rest, ..st })
                    } else {
                        (Some(path), IState { stack: rest, parsed: st.parsed.insert(path_canon(path)), pending: Some(Some(alias)), ..st })
                    }
                },
                _ => drain(IState { stack: rest, program: st.program.push(placed(inst, top.prefix)), ..st }),
            }
        }
    }
}

/// The state after the awaited module's source `src` arrives, or its error.
pub open spec fn spec_loaded(st: IState, src: Seq<char>) -> Result<IState, Seq<char>> {
    match spec_parse(spec_lex(src), src) {
        Err(e) => Err(e),
        Ok(insts) => Ok(IState {
            stack: st.stack.push(FrameV { rem: insts.reverse(), prefix: st.pending.unwrap() }),
            pending: None,
            ..st
        }),
    }
}

struct Frame {
    rem: Vec<Instruction>,
    prefix: Option<String>,
}

impl View for Frame {
    type V = FrameV;

    closed spec fn view(&self) -> FrameV {
        FrameV {
            rem: insts_view(self.rem@),
            prefix: match self.prefix {
                Some(p) => Some(p@),
                None => None,
            },
        }
    }
}

/// Gathers the instructions of a program and of the modules it imports.
pub struct Importer {
    program: Vec<Instruction>,
    parsed: StrSet,
    stack: Vec<Frame>,
    pending: Option<Option<String>>,
}

impl View for Importer {
    type V = IState;

    closed spec fn view(&self) -> IState {
        IState {
            program: insts_view(self.program@),
            parsed: self.parsed@,
            stack: self.stack@.map_values(|f: Frame| f@),
            pending: match self.pending {
                Some(Some(p)) => Some(Some(p@)),
                Some(None) => Some(None),
                None => None,
            },
        }
    }
}

impl Importer {
    pub closed spec fn wf(&self) -> bool {
        self.parsed.wf()
    }

    /// An importer that awaits the source of the main module at `main_module`.
    pub fn new(main_module: &str) -> (imp: Importer)
        ensures
            imp.wf(),
            imp@ == (IState {
                program: Seq::empty(),
                parsed: Set::<Seq<char>>::empty().insert(path_canon(main_module@)),
                stack: Seq::empty(),
                pending: Some(None),
            }),
    {
        let mut parsed = StrSet::new();
        parsed.insert(canonical_path(main_module));
        let imp = Importer { program: Vec::new(), parsed, stack: Vec::new(), pending: Some(None) };
        assert(insts_view(imp.program@) =~= Seq::empty());
        assert(imp.stack@.map_values(|f: Frame| f@) =~= Seq::empty());
        imp
    }

    /// Whether a module's source is awaited.
    pub fn is_waiting(&self) -> (b: bool)
        ensures
            b == (self@.pending is Some),
    {
        self.pending.is_some()
    }

    /// Takes the source text `source` of the awaited module and starts
    /// reading it; fails with the module's first parse error.
    pub fn loaded(&mut self, source: &str) -> (res: Result<(), Error>)
        requires
            old(self).wf(),
            old(self)@.pending is Some,
            source@.len() < usize::MAX,
        ensures
            final(self).wf(),
            match spec_loaded(old(self)@, source@) {
                Ok(st) => res is Ok && final(self)@ == st,
                Err(m) => res matches Err(e) && e@ == m,
            },
    {
        let mut insts = parse_source(source)?;
        let ghost iv = insts_view(insts@);
        let mut rem: Vec<Instruction> = Vec::new();
        while insts.len() > 0
            invariant
                insts_view(rem@) == iv.subrange(insts@.len() as int, iv.len() as int).reverse(),
                insts_view(insts@) == iv.subrange(0, insts@.len() as int),
                insts@.len() <= iv.len(),
            decreases insts.len(),
        {
            let ghost n = insts@.len();
            let ghost before = insts@;
            let x = insts.pop().unwrap();
            assert(insts_view(before)[n - 1] == x@);
            assert(iv.subrange(0, n as int)[n - 1] == iv[n - 1]);
            let ghost old_rem = rem@;
            rem.push(x);
            assert(insts_view(rem@) =~= insts_view(old_rem).push(x@));
            assert(insts_view(insts@) =~= iv.subrange(0, insts@.len() as int)) by {
                assert(insts_view(insts@) =~= insts_view(insts@.push(x)).drop_last());
            }
            assert(iv.subrange(n - 1, iv.len() as int).reverse() =~= iv.subrange(n as int, iv.len() as int).reverse().push(x@));
        }
        assert(iv.subrange(0, iv.len() as int) == iv);
        let prefix = match self.pending.take() {
            Some(p) => p,
            None => None,
        };
        let ghost old_stack = self.stack@;
        self.stack.push(Frame { rem, prefix });
        assert(self.stack@.map_values(|f: Frame| f@) =~= old_stack.map_values(|f: Frame| f@).push(self.stack@.last()@));
        Ok(())
    }

    /// Reads on until a module not yet requested is imported, which it
    /// asks for, or until every module is read.
    #[verifier::loop_isolation(false)]
    pub fn resolve_imports(&mut self) -> (action: ImportAction)
        requires
            old(self).wf(),
        ensures
            final(self).wf(),
            match action {
                ImportAction::Load(p) => drain(old(self)@) == (Some(p@), final(self)@),
                ImportAction::Done => drain(old(self)@) == (None::<Seq<char>>, final(self)@),
            },
    {
        let ghost st0 = self@;
        loop
            invariant
                self.wf(),
                drain(st0) == drain(self@),
            decreases work(self@.stack),
        {
            let ghost sv = self@.stack;
            if self.stack.len() == 0 {
                return ImportAction::Done;
            }
            let n = self.stack.len();
            let mut top = self.stack.pop().unwrap();
            assert(sv.drop_last() == self.stack@.map_values(|f: Frame| f@));
            assert(sv.last() == top@);
            let ghost r0 = top.rem@;
            match top.rem.pop() {
                None => {
                    assert(self@.stack == sv.drop_last());
                },
                Some(inst) => {
                    let ghost tv = top@;
                    assert(insts_view(top.rem@) =~= insts_view(r0).drop_last());
                    assert(inst@ == sv.last().rem.last());
                    assert(tv == (FrameV { rem: sv.last().rem.drop_last(), prefix: sv.last().prefix }));
                    match inst.kind {
                        InstructionKind::Import { alias, path } => {
                            let key = canonical_path(path.as_str());
                            let skip = self.parsed.contains(&key);
                            let ghost pv = path@;
                            let ghost av = alias@;
                            self.stack.push(top);
                            assert(self.stack@.map_values(|f: Frame| f@) =~= sv.drop_last().push(tv));
                            assert(self@.stack.drop_last() == sv.drop_last());
                            if skip {
                                continue;
                            }
                            self.parsed.insert(key);
                            self.pending = Some(Some(alias));
                            return ImportAction::Load(path);
                        },
                        kind => {
                            let mut inst = Instruction { kind, line: inst.line };
                            match &top.prefix {
                                Some(p) => inst.add_module_prefix(p.as_str()),
                                None => {},
                            }
                            let ghost old_prog = self.program@;
                            self.program.push(inst);
                            assert(insts_view(self.program@) =~= insts_view(old_prog).push(self.program@.last()@));
                            self.stack.push(top);
                            assert(self.stack@.map_values(|f: Frame| f@) =~= sv.drop_last().push(tv));
                            assert(self@.stack.drop_last() == sv.drop_last());
                        },
                    }
                },
            }
        }
    }

    /// The instructions placed so far.
    pub fn resolve(self) -> (program: Vec<Instruction>)
        ensures
            insts_view(program@) == self@.program,
    {
        self.program
    }
}

} // verus!

verus! {

/// Reading on asks for a module only if it was not requested before, and
/// records it as requested; it ends only when every module is read; and
/// the instructions placed before stay in place.
pub proof fn lemma_drain_requests_once(st: IState)
    ensures
        st.program.len() <= drain(st).1.program.len(),
        drain(st).1.program.subrange(0, st.program.len() as int) == st.program,
        match drain(st).0 {
            Some(p) => !st.parsed.contains(path_canon(p)) && drain(st).1.parsed == st.parsed.insert(path_canon(p)),
            None => drain(st).1.parsed == st.parsed && drain(st).1.stack.len() == 0,
        },
    decreases work(st.stack),
{
    if st.stack.len() > 0 {
        let top = st.stack.last();
        if top.rem.len() == 0 {
            lemma_drain_requests_once(IState { stack: st.stack.drop_last(), ..st });
        } else {
            let inst = top.rem.last();
            let rest = st.stack.drop_last().push(FrameV { rem: top.rem.drop_last(), prefix: top.prefix });
            assert(rest.drop_last() == st.stack.drop_last());
            match inst.kind {
                KindV::Import { alias, path } => {
                    if st.parsed.contains(path_canon(path)) {
                        lemma_drain_requests_once(IState { stack: rest, ..st });
                    } else {
                        assert(st.program.subrange(0, st.program.len() as int) == st.program);
                    }
                },
                _ => {
                    let st2 = IState { stack: rest, program: st.program.push(placed(inst, top.prefix)), ..st };
                    lemma_drain_requests_once(st2);
                    let fin = drain(st2).1;
                    assert(fin.program.subrange(0, st.program.len() as int)
                        == fin.program.subrange(0, st2.program.len() as int).subrange(0, st.program.len() as int));
                },
            }
        }
    } else {
        assert(st.program.subrange(0, st.program.len() as int) == st.program);
    }
}

/// Whether no instruction of `prog` is an import.
pub open spec fn import_free(prog: Seq<InstV>) -> bool {
    forall|i: int| 0 <= i < prog.len() ==> !((#[trigger] prog[i]).kind is Import)
}

/// Reading on places no import: the program the importer gathers, which
/// the checker refuses imports in, never holds one.
pub proof fn lemma_drain_places_no_import(st: IState)
    requires
        import_free(st.program),
    ensures
        import_free(drain(st).1.program),
    decreases work(st.stack),
{
    if st.stack.len() > 0 {
        let top = st.stack.last();
        if top.rem.len() == 0 {
            lemma_drain_places_no_import(IState { stack: st.stack.drop_last(), ..st });
        } else {
            let inst = top.rem.last();
            let rest = st.stack.drop_last().push(FrameV { rem: top.rem.drop_last(), prefix: top.prefix });
            assert(rest.drop_last() == st.stack.drop_last());
            match inst.kind {
                KindV::Import { alias, path } => {
                    if st.parsed.contains(path_canon(path)) {
                        lemma_drain_places_no_import(IState { stack: rest, ..st });
                    }
                },
                _ => {
                    let p2 = st.program.push(placed(inst, top.prefix));
                    assert forall|i: int| 0 <= i < p2.len() implies !((#[trigger] p2[i]).kind is Import) by {
                        if i < st.program.len() {
                            assert(p2[i] == st.program[i]);
                        }
                    }
                    lemma_drain_places_no_import(IState { stack: rest, program: p2, ..st });
                },
            }
        }
    }
}

} // verus!
