use rho_lang::irtext::{call_arguments, parse_module, split_fields, split_pieces, split_typed, typed_pair};

fn chars(s: &str) -> Vec<char> {
    s.chars().collect()
}

fn text(v: &[char]) -> String {
    v.iter().collect()
}

#[test]
fn a_module_splits_into_functions_and_blocks() {
    let ir = "; comment line\n\
define void @rho_kernel(double* %in, double* %out) {\n\
  %a = fadd double 1.0, 2.0 ; sum\n\
loop:\n\
  br label %loop\n\
}\n\
define i64 @rho_kernel_sweeps() {\n\
entry:\n\
  ret i64 1\n\
}\n\
define void @open() {\n\
  ret void\n";
    let fs = parse_module(ir);
    assert_eq!(fs.len(), 2);
    assert_eq!(fs[0].name, "rho_kernel");
    assert_eq!(fs[0].params, vec!["%in".to_string(), "%out".to_string()]);
    assert_eq!(fs[0].blocks.len(), 2);
    assert_eq!(fs[0].blocks[0].label, "%entry");
    assert_eq!(fs[0].blocks[0].instructions, vec!["%a = fadd double 1.0, 2.0".to_string()]);
    assert_eq!(fs[0].blocks[1].label, "%loop");
    assert_eq!(fs[0].blocks[1].instructions, vec!["br label %loop".to_string()]);
    assert_eq!(fs[1].name, "rho_kernel_sweeps");
    assert!(fs[1].params.is_empty());
    assert_eq!(fs[1].blocks.len(), 1);
    assert_eq!(fs[1].blocks[0].label, "%entry");
}

#[test]
fn fields_split_only_at_top_level_commas() {
    let f = split_fields(&chars("<2 x double> %a, <double 1.0, double 2.0> , %c"));
    let f: Vec<String> = f.iter().map(|v| text(v)).collect();
    assert_eq!(f, vec!["<2 x double> %a", "<double 1.0, double 2.0>", "%c"]);
    let pieces: Vec<String> = split_pieces(&chars("a,b,,c"), ',').iter().map(|v| text(v)).collect();
    assert_eq!(pieces, vec!["a", "b", "", "c"]);
}

#[test]
fn a_typed_operand_splits_after_its_type() {
    let (ty, tok) = split_typed(&chars(" <4 x double> %v "));
    assert_eq!((text(&ty), text(&tok)), ("<4 x double>".to_string(), "%v".to_string()));
    let (ty, tok) = split_typed(&chars("i64 %n"));
    assert_eq!((text(&ty), text(&tok)), ("i64".to_string(), "%n".to_string()));
    let (ty, tok) = split_typed(&chars("%bare"));
    assert_eq!((text(&ty), text(&tok)), (String::new(), "%bare".to_string()));
    let (ty, a, b) = typed_pair(&chars("double %x, 0x3FF0000000000000"));
    assert_eq!((text(&ty), text(&a), text(&b)), ("double".to_string(), "%x".to_string(), "0x3FF0000000000000".to_string()));
}

#[test]
fn a_call_passes_its_tokens() {
    let args: Vec<String> = call_arguments(&chars("call double @llvm.pow.f64(double %x, double %y)")).iter().map(|v| text(v)).collect();
    assert_eq!(args, vec!["%x", "%y"]);
}
