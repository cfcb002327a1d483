use tapelang::code_parser::{divide_into_function, parse};

#[test]
fn divide_no_whiles() {
    let rows: Vec<String> = vec![
        String::from("ptr++;"),
        String::from("ptr++;"),
        String::from("ptr++;"),
    ];

    let mut functions: Vec<Vec<String>> = Vec::new();
    functions.resize(1, Vec::new());

    let mut fun_number = 0;
    divide_into_function(&rows, &mut fun_number, 0, &mut functions);

    assert_eq!(functions[0].len(), 3);
    assert_eq!(functions[0][1], "ptr++;");
}

#[test]
fn divide_single_while() {
    let rows: Vec<String> = vec![
        String::from("ptr++;"),
        String::from("while (*ptr)"),
        String::from("{"),
        String::from("ptr++;"),
        String::from("}"),
        String::from("ptr++;"),
    ];

    let mut functions: Vec<Vec<String>> = Vec::new();
    functions.resize(2, Vec::new());

    let mut fun_number = 0;
    divide_into_function(&rows, &mut fun_number, 0, &mut functions);

    assert_eq!(functions[0].len(), 3);
    assert_eq!(functions[1].len(), 4);

    assert_eq!(functions[0][1], "fun1();");

    assert_eq!(functions[1][2], "ptr++;");
    assert_eq!(functions[1][2], "ptr++;");
    assert_eq!(functions[1][3], "}");
}

#[test]
fn divide_nested_while() {
    let rows: Vec<String> = vec![
        String::from("while (*ptr)"),
        String::from("{"),
        String::from("while (*ptr)"),
        String::from("{"),
        String::from("ptr++;"),
        String::from("}"),
        String::from("}"),
    ];

    let mut functions: Vec<Vec<String>> = Vec::new();
    functions.resize(3, Vec::new());

    let mut fun_number = 0;
    divide_into_function(&rows, &mut fun_number, 0, &mut functions);

    assert_eq!(functions[0].len(), 1);
    assert_eq!(functions[1].len(), 4);
    assert_eq!(functions[2].len(), 4);

    assert_eq!(functions[0][0], "fun1();");

    assert_eq!(functions[1][1], "{");
    assert_eq!(functions[1][2], "fun2();");

    assert_eq!(functions[2][2], "ptr++;");
    assert_eq!(functions[2][3], "}");
}

#[test]
fn divide_separate_whiles() {
    let rows: Vec<String> = vec![
        String::from("while (*ptr)"),
        String::from("{"),
        String::from("ptr++;"),
        String::from("}"),
        String::from("while (*ptr)"),
        String::from("{"),
        String::from("ptr--;"),
        String::from("}"),
    ];

    let mut functions: Vec<Vec<String>> = Vec::new();
    functions.resize(3, Vec::new());

    let mut fun_number = 0;
    divide_into_function(&rows, &mut fun_number, 0, &mut functions);

    assert_eq!(functions[0].len(), 2);
    assert_eq!(functions[1].len(), 4);
    assert_eq!(functions[2].len(), 4);

    assert_eq!(functions[0][0], "fun1();");
    assert_eq!(functions[0][1], "fun2();");

    assert_eq!(functions[1][1], "{");
    assert_eq!(functions[1][2], "ptr++;");

    assert_eq!(functions[2][2], "ptr--;");
    assert_eq!(functions[2][3], "}");
}

#[test]
fn partition_simple_scenario() {
    // one un-nested loop between plain statements
    let rows: Vec<String> = vec![
        String::from("a;"),
        String::from("while (*ptr)"),
        String::from("{"),
        String::from("b;"),
        String::from("}"),
        String::from("c;"),
    ];

    let mut functions: Vec<Vec<String>> = Vec::new();
    functions.resize(2, Vec::new());

    let mut fun_number = 0;
    divide_into_function(&rows, &mut fun_number, 0, &mut functions);

    assert_eq!(functions[0], vec!["a;", "fun1();", "c;"]);
    assert_eq!(functions[1], vec!["while (*ptr)", "{", "b;", "}"]);
}

#[test]
fn partition_nested_scenario() {
    // two nested loops: each function calls the next exactly once, in
    // source nesting order, and the innermost body sits in function 2
    let rows: Vec<String> = vec![
        String::from("while (*ptr)"),
        String::from("{"),
        String::from("while (*ptr)"),
        String::from("{"),
        String::from("x;"),
        String::from("}"),
        String::from("}"),
    ];

    let mut functions: Vec<Vec<String>> = Vec::new();
    functions.resize(3, Vec::new());

    let mut fun_number = 0;
    divide_into_function(&rows, &mut fun_number, 0, &mut functions);

    let calls_in = |rows: &Vec<String>| -> Vec<String> {
        rows.iter().filter(|r| r.starts_with("fun")).cloned().collect::<Vec<String>>()
    };
    assert_eq!(calls_in(&functions[0]), vec!["fun1();"]);
    assert_eq!(calls_in(&functions[1]), vec!["fun2();"]);
    assert_eq!(calls_in(&functions[2]), Vec::<String>::new());
    assert_eq!(functions[2], vec!["while (*ptr)", "{", "x;", "}"]);
}

#[test]
fn parse_renders_whole_program() {
    let rows: Vec<String> = vec![
        String::from("while (*ptr)"),
        String::from("{"),
        String::from("ptr++;"),
        String::from("}"),
    ];
    let text = parse(&rows, 2);

    let expected = "#include <stdio.h>\n\nvoid fun1();\n\nchar array[30000] = {0};\nchar* ptr = array;\n\nint main()\n{\n\tfun1();\n\n\treturn 0;\n}\n\nvoid fun1()\n{\n\twhile (*ptr)\n\t{\n\tptr++;\n\t}\n}\n\n";
    assert_eq!(text, expected);
}
