//! The compilation pipeline bundled as one object: checker, code generator
//! and native assembler, with the driver flags.
//!
//! Tokenizing and parsing are external collaborators: the driver parses the
//! input and hands `compile_file` the syntax tree.

use vstd::prelude::*;
use crate::assembler::Assembler;
use crate::checker::TypeChecker;
use crate::codegen::{callables_unique, fields_unique, Codegen};
use crate::errors::CodegenError;
use crate::ast::FileNode;
use crate::ir::IrModule;
use crate::layout::{class_names_unique, classes_closed};

verus! {

/// A path separator on either platform.
pub open spec fn is_path_sep(c: char) -> bool {
    c == '/' || c == '\\'
}

/// The artifact paths for one input: the object file and the executable,
/// both in the fixed output folder, named after the input file with its
/// source extension replaced.
pub fn output_names(input_path: &String) -> (r: (String, String))
    ensures
        exists|cut: int|
            #![trigger input_path@.subrange(cut, input_path@.len() as int)]
            {
                &&& 0 <= cut <= input_path@.len()
                &&& (cut == 0 || is_path_sep(input_path@[cut - 1]))
                &&& (forall|k: int| cut <= k < input_path@.len() ==> !is_path_sep(#[trigger] input_path@[k]))
                &&& {
                    let base = input_path@.subrange(cut, input_path@.len() as int);
                    let stem = if base.len() >= 3 && base.subrange(
                        base.len() - 3,
                        base.len() as int,
                    ) == ".bu"@ {
                        base.subrange(0, base.len() - 3)
                    } else {
                        base
                    };
                    &&& r.0@ == "out/"@ + stem + ".obj"@
                    &&& r.1@ == "out/"@ + stem + ".exe"@
                }
            },
{
    let path = input_path.as_str();
    let len = path.unicode_len();
    let mut cut: usize = 0;
    let mut i: usize = 0;
    while i < len
        invariant
            i <= len,
            len == path@.len(),
            cut <= i,
            cut == 0 || is_path_sep(path@[cut - 1]),
            forall|k: int| cut <= k < i ==> !is_path_sep(#[trigger] path@[k]),
        decreases len - i,
    {
        let c = path.get_char(i);
        if c == '/' || c == '\\' {
            cut = i + 1;
        }
        i = i + 1;
    }
    let base = path.substring_char(cut, len);
    let has_ext = base.unicode_len() >= 3 && {
        let bl = base.unicode_len();
        base.get_char(bl - 3) == '.' && base.get_char(bl - 2) == 'b' && base.get_char(bl - 1)
            == 'u'
    };
    let stem = if has_ext {
        proof {
            reveal_strlit(".bu");
            assert(base@.subrange(base@.len() - 3, base@.len() as int) =~= ".bu"@);
        }
        base.substring_char(0, base.unicode_len() - 3)
    } else {
        proof {
            if base@.len() >= 3 && base@.subrange(base@.len() - 3, base@.len() as int)
                == ".bu"@ {
                reveal_strlit(".bu");
                let sub = base@.subrange(base@.len() - 3, base@.len() as int);
                assert(sub[0] == base@[base@.len() - 3]);
                assert(sub[1] == base@[base@.len() - 2]);
                assert(sub[2] == base@[base@.len() - 1]);
                assert(false);
            }
        }
        base
    };
    let mut obj = String::from_str("out/");
    obj.append(stem);
    obj.append(".obj");
    let mut exe = String::from_str("out/");
    exe.append(stem);
    exe.append(".exe");
    (obj, exe)
}

/// Extracts the target triple from the toolchain's version report: the
/// text after `host: ` on the first line that starts with it.
pub fn parse_host_line(report: &str) -> (r: Option<String>)
    ensures
        r matches Option::Some(h) ==> exists|a: int, b: int|
            #![trigger report@.subrange(a, b)]
            {
                &&& 0 <= a <= b <= report@.len()
                &&& (a == 0 || report@[a - 1] == '\n')
                &&& (b == report@.len() || report@[b] == '\n')
                &&& (forall|k: int| a <= k < b ==> report@[k] != '\n')
                &&& b - a >= 6
                &&& report@.subrange(a, a + 6) == "host: "@
                &&& h@ == report@.subrange(a + 6, b)
            },
{
    let len = report.unicode_len();
    let mut i: usize = 0;
    while i < len
        invariant
            i <= len + 1,
            len == report@.len(),
            i == 0 || i > len || report@[i - 1] == '\n',
        decreases len + 1 - i,
    {
        // The current line spans [i, e).
        let mut e: usize = i;
        while e < len && report.get_char(e) != '\n'
            invariant
                i <= e <= len,
                len == report@.len(),
                forall|k: int| i <= k < e ==> report@[k] != '\n',
            decreases len - e,
        {
            e = e + 1;
        }
        proof {
            assert(e == len || report@[e as int] == '\n');
        }
        if e - i >= 6 {
            let p0 = report.get_char(i);
            let p1 = report.get_char(i + 1);
            let p2 = report.get_char(i + 2);
            let p3 = report.get_char(i + 3);
            let p4 = report.get_char(i + 4);
            let p5 = report.get_char(i + 5);
            if p0 == 'h' && p1 == 'o' && p2 == 's' && p3 == 't' && p4 == ':' && p5 == ' ' {
                let host = report.substring_char(i + 6, e);
                proof {
                    reveal_strlit("host: ");
                    assert(report@.subrange(i as int, i as int + 6) =~= "host: "@);
                    let line = report@.subrange(i as int, e as int);
                    assert(line.len() == e - i);
                }
                return Option::Some(String::from_str(host));
            }
        }
        if e == len {
            return Option::None;
        }
        i = e + 1;
    }
    Option::None
}

/// One compilation, front to back.
pub struct Compiler {
    pub checker: TypeChecker,
    pub codegen: Codegen,
    pub assembler: Assembler,
    pub print_debug: bool,
    pub run: bool,
}

impl Compiler {
    /// A pipeline for one input file.
    pub fn new(path: &String, print_debug: bool, run: bool) -> (r: Result<Self, String>)
        ensures
            r is Ok,
            r is Ok ==> {
                let c = r->Ok_0;
                &&& c.print_debug == print_debug
                &&& c.run == run
                &&& c.assembler.path@ == path@
                &&& c.assembler.print_debug == print_debug
                &&& c.codegen.sm.structs@.len() == 0
                &&& c.codegen.signatures@.len() == 0
            },
    {
        Result::Ok(
            Compiler {
                checker: TypeChecker::new(),
                codegen: Codegen::new(),
                assembler: Assembler::new().debug(print_debug).filepath(path),
                print_debug,
                run,
            },
        )
    }

    /// Checks and lowers one parsed file; the driver takes the returned
    /// module through emission, linking, and the optional run.
    pub fn compile_file(&mut self, ast: &FileNode) -> (r: Result<IrModule, String>)
        requires
            old(self).codegen.sm.structs@.len() == 0,
            old(self).codegen.signatures@.len() == 0,
            class_names_unique(ast.classes@),
            classes_closed(ast.classes@),
            fields_unique(ast.classes@),
            callables_unique(*ast),
        ensures
            (ast.classes@.len() == 0 && ast.functions@.len() == 0) ==> r is Ok,
            r is Ok ==> crate::layout::acyclic(ast.classes@),
            r is Ok ==> {
                let m = r->Ok_0;
                let nm = crate::codegen::sum_methods(ast.classes@, ast.classes@.len() as int);
                &&& m.functions@.len() == nm + ast.functions@.len()
                &&& (forall|i: int|
                    0 <= i < ast.functions@.len() ==> (#[trigger] m.functions@[nm + i]).name@
                        == ast.functions@[i].name@)
                &&& (forall|k: int, b: int|
                    0 <= k < m.functions@.len() && 0 <= b < m.functions@[k].blocks@.len() ==> (
                    #[trigger] m.functions@[k].blocks@[b]).terminator is Some)
            },
            r is Ok ==> final(self).codegen.sm.wf() && final(self).codegen.sm.structs@.len()
                == ast.classes@.len() && (forall|c: int|
                0 <= c < ast.classes@.len() ==> final(self).codegen.sm.spec_contains_struct(
                    (#[trigger] ast.classes@[c]).name@,
                )),
            r is Ok ==> forall|c: int|
                0 <= c < ast.classes@.len() ==> crate::checker::keyed_contains(
                    final(self).checker.known_classes@,
                    (#[trigger] ast.classes@[c]).name@,
                ),
    {
        match self.checker.type_check_file(ast) {
            Result::Ok(_) => {},
            Result::Err(e) => {
                return Result::Err(e);
            },
        }
        match self.codegen.generate_code(ast) {
            Result::Ok(m) => Result::Ok(m),
            Result::Err(e) => Result::Err(e.describe()),
        }
    }
}

} // verus!
