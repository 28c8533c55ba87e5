//! The minimal native assembler: builder configuration and the exact
//! listing text.

use bucc::assembler::{Assembler, IR};

#[test]
fn builders_configure_path_and_debug() {
    let a = Assembler::new();
    assert!(!a.print_debug);
    assert_eq!(a.path, "");
    let a = a.filepath(&"prog.bu".to_string()).debug(true);
    assert_eq!(a.path, "prog.bu");
    assert!(a.print_debug);
}

#[test]
fn listing_has_prologue_and_labels() {
    let a = Assembler::new().filepath(&"prog.bu".to_string());
    let ir = vec![
        IR::Label { name: "main".to_string() },
        IR::Add { dst: "rax".to_string(), src1: "rax".to_string(), src2: "rbx".to_string() },
        IR::Label { name: "done".to_string() },
    ];
    let text = a.generate_x86_64(&ir).unwrap();
    let expected = "  ; Generated code for prog.bu\n\
                    default rel\n\
                    \n\
                    segment .text\n\
                    \x20 global main\n\
                    \x20 extern ExitProcess\n\
                    \x20 extern printf\n\
                    \x20 extern malloc\n\
                    \n\
                    main:\ndone:\n";
    assert_eq!(text, expected);
}
