//! Assembly text emission for the minimal native backend: renders a list of
//! backend instructions as an x86-64 assembly listing. The driver prints or
//! stores the returned text.

use vstd::prelude::*;

verus! {

/// One instruction of the minimal native backend.
pub enum IR {
    /// In-place addition: `dst` and `src1` name the same storage.
    Add { dst: String, src1: String, src2: String },
    /// A jump label.
    Label { name: String },
}

/// The text one instruction contributes to the listing.
pub open spec fn line_of(ir: IR) -> Seq<char> {
    match ir {
        IR::Add { dst, src1, src2 } => Seq::<char>::empty(),
        IR::Label { name } => name@ + ":"@ + "\n"@,
    }
}

/// The text a whole instruction list contributes.
pub open spec fn asm_lines(irs: Seq<IR>) -> Seq<char>
    decreases irs.len(),
{
    if irs.len() == 0 {
        Seq::<char>::empty()
    } else {
        asm_lines(irs.drop_last()) + line_of(irs.last())
    }
}

/// The fixed prologue of every listing.
pub open spec fn asm_header(path: Seq<char>) -> Seq<char> {
    "  ; Generated code for "@ + path + "\n"@ + "default rel"@ + "\n"@ + "\n"@ + "segment .text"@
        + "\n"@ + "  global main"@ + "\n"@ + "  extern ExitProcess"@ + "\n"@ + "  extern printf"@
        + "\n"@ + "  extern malloc"@ + "\n"@ + "\n"@
}

/// The minimal native assembler: renders backend instructions as assembly
/// text for the source file it was configured with.
pub struct Assembler {
    pub print_debug: bool,
    pub path: String,
}

impl Assembler {
    /// A fresh assembler with no source path.
    pub fn new() -> (r: Self)
        ensures
            !r.print_debug,
            r.path@.len() == 0,
    {
        Assembler { print_debug: false, path: String::new() }
    }

    /// The same assembler, configured for a source path.
    pub fn filepath(self, path: &String) -> (r: Self)
        ensures
            r.path@ == path@,
            r.print_debug == self.print_debug,
    {
        Assembler { path: path.clone(), ..self }
    }

    /// The same assembler, with debug printing switched.
    pub fn debug(self, print_debug: bool) -> (r: Self)
        ensures
            r.print_debug == print_debug,
            r.path == self.path,
    {
        Assembler { print_debug, ..self }
    }

    /// Renders the listing: the fixed prologue, then one fragment per
    /// instruction. In-place additions contribute no text yet; labels
    /// contribute their line.
    pub fn generate_x86_64(&self, ir: &Vec<IR>) -> (r: Result<String, String>)
        requires
            forall|k: int|
                0 <= k < ir@.len() ==> ((#[trigger] ir@[k]) matches IR::Add { dst, src1, src2 }
                    ==> dst@ == src1@),
        ensures
            r is Ok,
            r->Ok_0@ == asm_header(self.path@) + asm_lines(ir@),
    {
        let mut out = String::from_str("  ; Generated code for ");
        out.append(self.path.as_str());
        out.append("\n");
        out.append("default rel");
        out.append("\n");
        out.append("\n");
        out.append("segment .text");
        out.append("\n");
        out.append("  global main");
        out.append("\n");
        out.append("  extern ExitProcess");
        out.append("\n");
        out.append("  extern printf");
        out.append("\n");
        out.append("  extern malloc");
        out.append("\n");
        out.append("\n");
        let n = ir.len();
        let mut i: usize = 0;
        while i < n
            invariant
                n == ir@.len(),
                i <= n,
                out@ == asm_header(self.path@) + asm_lines(ir@.subrange(0, i as int)),
            decreases n - i,
        {
            match &ir[i] {
                IR::Add { dst, src1, src2 } => {},
                IR::Label { name } => {
                    out.append(name.as_str());
                    out.append(":");
                    out.append("\n");
                },
            }
            proof {
                assert(ir@.subrange(0, i as int + 1).drop_last() =~= ir@.subrange(0, i as int));
                assert(ir@.subrange(0, i as int + 1).last() == ir@[i as int]);
                assert(out@ =~= asm_header(self.path@) + asm_lines(ir@.subrange(0, i as int + 1)));
            }
            i = i + 1;
        }
        proof {
            assert(ir@.subrange(0, n as int) =~= ir@);
        }
        Result::Ok(out)
    }
}

} // verus!
