use tapelang::errors::Error;
use tapelang::interpreter::{decode_input_value, Interpreter, StepOutcome};
use tapelang::jump_resolver::build_jump_table;

fn chars(s: &str) -> Vec<char> {
    s.chars().collect()
}

#[test]
fn jump_table_matches_partners() {
    let command = chars("[[][]]");
    let table = build_jump_table(&command).unwrap();
    assert_eq!(table, vec![5, 2, 1, 4, 3, 0]);
}

#[test]
fn jump_table_is_involutive_on_sample() {
    let command = chars("+[->[]<]-[]");
    let table = build_jump_table(&command).unwrap();
    for (p, c) in command.iter().enumerate() {
        if *c == '[' || *c == ']' {
            assert_eq!(table[table[p]], p);
        }
    }
}

#[test]
fn jump_table_rejects_one_extra_open() {
    let command = chars("[[]");
    assert_eq!(build_jump_table(&command), Err(Error::UnbalancedBrackets));
}

#[test]
fn jump_table_rejects_one_extra_close() {
    let command = chars("[]]");
    assert_eq!(build_jump_table(&command), Err(Error::UnbalancedBrackets));
}

#[test]
fn interpret_counter_loop_halts() {
    let mut interpreter = Interpreter::new();
    let command = chars("+[>+<-]");
    let outcome = interpreter.interpret(&command, &Vec::new(), 10_000).unwrap();

    assert_eq!(outcome, StepOutcome::Finished);
    assert_eq!(interpreter.tape.head_position, 0);
    assert_eq!(interpreter.tape.get_current_value(), 0);
    interpreter.tape.move_right();
    assert_eq!(interpreter.tape.get_current_value(), 1);
    assert_eq!(interpreter.output, Vec::<u8>::new());
}

#[test]
fn interpret_is_deterministic() {
    let command = chars("+[>+<-]>.");
    let mut first = Interpreter::new();
    let mut second = Interpreter::new();
    assert_eq!(
        first.interpret(&command, &Vec::new(), 10_000).unwrap(),
        StepOutcome::Finished
    );
    assert_eq!(
        second.interpret(&command, &Vec::new(), 10_000).unwrap(),
        StepOutcome::Finished
    );
    assert_eq!(first.output, second.output);
    assert_eq!(first.tape.head_position, second.tape.head_position);
    assert_eq!(first.output, vec![1u8]);
}

#[test]
fn interpret_outputs_cell_values() {
    let mut interpreter = Interpreter::new();
    let command = chars("+++.");
    let outcome = interpreter.interpret(&command, &Vec::new(), 100).unwrap();

    assert_eq!(outcome, StepOutcome::Finished);
    assert_eq!(interpreter.output, vec![3u8]);
}

#[test]
fn interpret_skips_loop_on_zero_cell() {
    let mut interpreter = Interpreter::new();
    let command = chars("[+++].");
    let outcome = interpreter.interpret(&command, &Vec::new(), 100).unwrap();

    assert_eq!(outcome, StepOutcome::Finished);
    assert_eq!(interpreter.output, vec![0u8]);
}

#[test]
fn interpret_rejects_unbalanced_brackets() {
    let mut interpreter = Interpreter::new();
    let command = chars("+[");
    let result = interpreter.interpret(&command, &Vec::new(), 100);
    assert_eq!(result, Err(Error::UnbalancedBrackets));
}

#[test]
fn interpret_decodes_decimal_input() {
    let mut interpreter = Interpreter::new();
    let command = chars(",.");
    let inputs = vec![b"65\n".to_vec()];
    let outcome = interpreter.interpret(&command, &inputs, 100).unwrap();

    assert_eq!(outcome, StepOutcome::Finished);
    assert_eq!(interpreter.output, vec![65u8]);
}

#[test]
fn interpret_falls_back_to_first_byte() {
    let mut interpreter = Interpreter::new();
    let command = chars(",.");
    let inputs = vec![b"xyz".to_vec()];
    let outcome = interpreter.interpret(&command, &inputs, 100).unwrap();

    assert_eq!(outcome, StepOutcome::Finished);
    assert_eq!(interpreter.output, vec![b'x']);
}

#[test]
fn interpret_falls_back_on_oversized_number() {
    let mut interpreter = Interpreter::new();
    let command = chars(",.");
    let inputs = vec![b"300".to_vec()];
    let outcome = interpreter.interpret(&command, &inputs, 100).unwrap();

    assert_eq!(outcome, StepOutcome::Finished);
    assert_eq!(interpreter.output, vec![b'3']);
}

#[test]
fn interpret_waits_when_inputs_run_out() {
    let mut interpreter = Interpreter::new();
    let command = chars("+,+");
    let outcome = interpreter.interpret(&command, &Vec::new(), 100).unwrap();

    assert_eq!(outcome, StepOutcome::NeedInput);
    // the run can go on once an input text arrives
    interpreter.provide_input(&b"7".to_vec());
    let rest = interpreter.run(100);
    assert_eq!(rest, StepOutcome::Finished);
    assert_eq!(interpreter.tape.get_current_value(), 8);
}

#[test]
fn decode_accepts_sign_and_whitespace() {
    assert_eq!(decode_input_value(&b"65".to_vec()), 65);
    assert_eq!(decode_input_value(&b"+65".to_vec()), 65);
    assert_eq!(decode_input_value(&b" 65 \n".to_vec()), 65);
    assert_eq!(decode_input_value(&b"255".to_vec()), 255);
}

#[test]
fn decode_falls_back_outside_decimal_range() {
    // not a decimal byte: the first raw byte is stored instead
    assert_eq!(decode_input_value(&b"256".to_vec()), b'2');
    assert_eq!(decode_input_value(&b"-1".to_vec()), b'-');
    assert_eq!(decode_input_value(&b"12a".to_vec()), b'1');
    assert_eq!(decode_input_value(&b" ".to_vec()), b' ');
    assert_eq!(decode_input_value(&b"".to_vec()), 0);
}

#[test]
fn interpret_stops_at_step_limit() {
    let mut interpreter = Interpreter::new();
    let command = chars("+[]");
    let outcome = interpreter.interpret(&command, &Vec::new(), 50).unwrap();
    assert_eq!(outcome, StepOutcome::StepLimit);
}

#[test]
fn round_trip_translation_matches_interpretation() {
    // interpreting `+++.` emits the single byte 3 ...
    let command = chars("+++.");
    let mut interpreter = Interpreter::new();
    interpreter.interpret(&command, &Vec::new(), 100).unwrap();
    assert_eq!(interpreter.output, vec![3u8]);

    // ... and the generated source performs the same arithmetic on its
    // cell before writing it out: add 3, then putchar
    let mut translator = tapelang::ctranslator::CTranslator::new();
    let text = translator.translate(&command).unwrap();
    assert!(text.contains("\t*ptr += 3;\n\tputchar(*ptr);\n"));
}
