use tapelang::ctranslator::{get_arithmetic_str, CTranslator};
use tapelang::errors::Error;

#[test]
fn increment_with_one() {
    let result = get_arithmetic_str("+", 1);
    assert_eq!(result, "++");
}

#[test]
fn increment() {
    let result = get_arithmetic_str("+", 7);
    assert_eq!(result, " += 7");
}

#[test]
fn decrement_with_one() {
    let result = get_arithmetic_str("-", 1);
    assert_eq!(result, "--");
}

#[test]
fn decrement() {
    let result = get_arithmetic_str("-", 7);
    assert_eq!(result, " -= 7");
}

#[test]
fn emitter_folds_runs() {
    let mut translator = CTranslator::new();
    let command: Vec<char> = "+++".chars().collect();
    let result = translator.translate(&command);
    assert!(result.is_ok());

    // the run of three emits one compound statement
    assert_eq!(translator.code_lines, vec!["*ptr += 3;"]);
}

#[test]
fn emitter_single_command_uses_doubled_form() {
    let mut translator = CTranslator::new();
    let command: Vec<char> = "+".chars().collect();
    let result = translator.translate(&command);
    assert!(result.is_ok());

    assert_eq!(translator.code_lines, vec!["*ptr++;"]);
}

#[test]
fn emitter_skips_inert_characters() {
    let mut translator = CTranslator::new();
    let command: Vec<char> = "+a+ +\n>".chars().collect();
    let result = translator.translate(&command);
    assert!(result.is_ok());

    // inert characters break runs without emitting anything
    assert_eq!(
        translator.code_lines,
        vec!["*ptr++;", "*ptr++;", "*ptr++;", "ptr++;"]
    );
}

#[test]
fn emitter_emits_loop_and_io_lines() {
    let mut translator = CTranslator::new();
    let command: Vec<char> = "[-],.".chars().collect();
    let result = translator.translate(&command);
    assert!(result.is_ok());

    assert_eq!(
        translator.code_lines,
        vec![
            "while (*ptr)",
            "{",
            "*ptr--;",
            "}",
            "*ptr = getchar();",
            "putchar(*ptr);"
        ]
    );
}

#[test]
fn translate_renders_full_program() {
    let mut translator = CTranslator::new();
    let command: Vec<char> = "+++.".chars().collect();
    let text = translator.translate(&command).unwrap();

    let expected = "#include <stdio.h>\n\n\nchar array[30000] = {0};\nchar* ptr = array;\n\nint main()\n{\n\t*ptr += 3;\n\tputchar(*ptr);\n\n\treturn 0;\n}\n\n";
    assert_eq!(text, expected);
}

#[test]
fn translate_rejects_unbalanced_brackets() {
    let mut translator = CTranslator::new();
    let command: Vec<char> = "+[+".chars().collect();
    let result = translator.translate(&command);
    assert_eq!(result, Err(Error::UnbalancedBrackets));
}

#[test]
fn translate_partitions_loops_into_functions() {
    let mut translator = CTranslator::new();
    let command: Vec<char> = "+[>[-]<]".chars().collect();
    let text = translator.translate(&command).unwrap();

    // the nested loop becomes fun2, called from fun1, called from main
    assert!(text.contains("void fun1();\nvoid fun2();\n"));
    assert!(text.contains("int main()\n{\n\t*ptr++;\n\tfun1();\n"));
    assert!(text.contains("void fun1()\n{\n\twhile (*ptr)\n\t{\n\tptr++;\n\tfun2();\n\tptr--;\n\t}\n}\n"));
    assert!(text.contains("void fun2()\n{\n\twhile (*ptr)\n\t{\n\t*ptr--;\n\t}\n}\n"));
}
