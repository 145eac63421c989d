use peps::common::numeric::Int;
use peps::symbol_table::SymbolTable;
use peps::{
    compile_source, lexer, parser, run_source, run_source_for_browser, run_source_with_inputs,
    run_source_with_step_limit, semantic, vm, Diagnostic, ExecutionLimit, FloatOperation, FloatReply,
    FloatRequest, Instruction, Span, Type, Value, IDE_STEP_LIMIT,
};

/// Float arithmetic with the host's `f64`.
fn float_ops(request: FloatRequest) -> FloatReply {
    match request {
        FloatRequest::Parse(text) => match text.parse::<f64>() {
            Ok(value) => FloatReply::Number(value.to_bits()),
            Err(_) => FloatReply::Invalid,
        },
        FloatRequest::Arithmetic(op, a, b) => {
            let (x, y) = (f64::from_bits(a), f64::from_bits(b));
            let value = match op {
                FloatOperation::Add => x + y,
                FloatOperation::Sub => x - y,
                FloatOperation::Mul => x * y,
                FloatOperation::Div => x / y,
            };
            FloatReply::Number(value.to_bits())
        }
        FloatRequest::Format(bits) => FloatReply::Text(f64::from_bits(bits).to_string()),
    }
}

fn run(source: &str) -> Vec<String> {
    run_source(source, &float_ops).expect("source should run")
}

fn run_error(source: &str) -> String {
    run_source(source, &float_ops).expect_err("source should fail").diagnostics[0].message.clone()
}

fn check_error(source: &str) -> String {
    let tokens = lexer::lex(source).expect("source should lex");
    let program = parser::parse(tokens).expect("source should parse");
    semantic::check(program).expect_err("source should be rejected")[0].message.clone()
}

#[test]
fn map_literal_keeps_first_insertion_order_and_replaces_duplicates() {
    assert_eq!(
        run("📖 🟰 🗺️ 💬a💬 ➡️ 1️⃣ 💬b💬 ➡️ 2️⃣ 💬a💬 ➡️ 3️⃣ 🗺️ 🔚 📢 📖 🔚 📢 📏 📖 🔚"),
        vec!["🗺️ 💬a💬 ➡️ 3 💬b💬 ➡️ 2 🗺️", "2"]
    );
}

#[test]
fn map_lookup_and_merge() {
    assert_eq!(
        run("📖 🟰 🗺️ 💬visits💬 ➡️ 1️⃣2️⃣0️⃣ 💬year💬 ➡️ 2️⃣0️⃣2️⃣6️⃣ 🗺️ 🔚 📢 📖 🔎 💬year💬 🔚 📖 📥 🗺️ 💬visits💬 ➡️ 1️⃣3️⃣5️⃣ 💬users💬 ➡️ 4️⃣2️⃣ 🗺️ 🔚 📢 📖 🔚"),
        vec!["2026", "🗺️ 💬visits💬 ➡️ 135 💬year💬 ➡️ 2026 💬users💬 ➡️ 42 🗺️"]
    );
}

#[test]
fn map_key_existence_matches_lookup() {
    assert_eq!(
        run("📖 🟰 🗺️ 💬name💬 ➡️ 💬Peps💬 🗺️ 🔚 📢 🔑 📖 💬name💬 🔚 📢 🔑 📖 💬missing💬 🔚 📢 📖 🔎 💬name💬 🔚"),
        vec!["✅", "❌", "Peps"]
    );
}

#[test]
fn missing_map_key_is_reported_with_the_quoted_key() {
    assert_eq!(
        run_error("📖 🟰 🗺️ 💬a💬 ➡️ 1️⃣ 🗺️ 🔚 📢 📖 🔎 💬zz💬 🔚"),
        "map key \"zz\" was not found"
    );
}

#[test]
fn empty_map_and_mixed_map_values_are_rejected() {
    assert!(check_error("📖 🟰 🗺️ 🗺️ 🔚").contains("empty maps"));
    assert!(check_error("📖 🟰 🗺️ 💬a💬 ➡️ 1️⃣ 💬b💬 ➡️ ✅ 🗺️ 🔚").contains("same type"));
    assert!(check_error("📖 🟰 🗺️ 1️⃣ ➡️ 1️⃣ 🗺️ 🔚").contains("map keys must be text"));
}

#[test]
fn text_length_and_index_count_graphemes() {
    assert_eq!(
        run("📝 🟰 💬Peps 🚀💬 🔚 📢 📏 📝 🔚 📢 📝 🔎 0️⃣ 🔚 📢 📝 🔎 5️⃣ 🔚 📢 📏 💬👨‍👩‍👧‍👦💬 🔚"),
        vec!["6", "P", "🚀", "1"]
    );
    assert_eq!(run_error("📝 🟰 💬ab💬 🔚 📢 📝 🔎 2️⃣ 🔚"), "text index 2 is out of bounds");
}

#[test]
fn list_index_out_of_bounds_message_names_the_index() {
    assert_eq!(run_error("🍎 🟰 📚 1️⃣ 2️⃣ 📚 🔚 📢 🍎 🔎 ➖1️⃣ 🔚"), "list index -1 is out of bounds");
}

#[test]
fn empty_list_after_printing_is_delimited() {
    assert_eq!(run("🍎 🟰 📚 💬x💬 📚 🔚 📢 🍎 🔚"), vec!["📚 x 📚"]);
}

#[test]
fn constants_are_read_only() {
    assert_eq!(run("🔐 🐶 🟰 4️⃣2️⃣ 🔚 📢 🐶 🔚"), vec!["42"]);
    assert!(check_error("🔐 🐶 🟰 4️⃣2️⃣ 🔚 🐶 🟰 4️⃣3️⃣ 🔚").contains("cannot be reassigned"));
    assert!(check_error("🔐 🍎 🟰 📚 1️⃣ 2️⃣ 📚 🔚 🍎 📥 3️⃣ 🔚").contains("cannot be updated"));
    assert!(check_error("🐶 🟰 1️⃣ 🔚 🔐 🐶 🟰 2️⃣ 🔚").contains("visible name"));
}

#[test]
fn integer_division_rounds_toward_zero() {
    assert_eq!(run("📢 ➖7️⃣ ➗ 2️⃣ 🔚 📢 7️⃣ ➗ ➖2️⃣ 🔚 📢 7️⃣ ➗ 2️⃣ 🔚"), vec!["-3", "-3", "3"]);
}

#[test]
fn integer_arithmetic_is_exact_beyond_machine_words() {
    assert_eq!(
        run("📢 9️⃣9️⃣9️⃣9️⃣9️⃣9️⃣9️⃣9️⃣9️⃣9️⃣9️⃣9️⃣9️⃣9️⃣9️⃣9️⃣9️⃣9️⃣9️⃣9️⃣ ✖️ 9️⃣9️⃣9️⃣9️⃣9️⃣9️⃣9️⃣9️⃣9️⃣9️⃣9️⃣9️⃣9️⃣9️⃣9️⃣9️⃣9️⃣9️⃣9️⃣9️⃣ ➖ 1️⃣ 🔚"),
        vec!["9999999999999999999800000000000000000000"]
    );
}

#[test]
fn float_results_are_printed_by_the_host_format() {
    assert_eq!(run("📢 0️⃣.1️⃣ ➕ 0️⃣.2️⃣ 🔚 📢 ➖0️⃣.0️⃣ 🟰🟰 0️⃣.0️⃣ 🔚 📢 1️⃣.5️⃣ ◀️ 2️⃣ 🔚"), vec!["0.30000000000000004", "✅", "✅"]);
}

#[test]
fn typed_input_is_trimmed_and_booleans_accept_words() {
    let output = run_source_with_inputs(
        "🐶 🟰 ⌨️ 🔢 🔚 🐱 🟰 ⌨️ ☑️ 🔚 🦊 🟰 ⌨️ ☑️ 🔚 📢 🐶 🔚 📢 🐱 🔚 📢 🦊 🔚",
        vec!["  41  ".to_string(), "false".to_string(), " ✅ ".to_string()],
        &float_ops,
    )
    .expect("input should run");
    assert_eq!(output, vec!["41", "❌", "✅"]);
    let error = run_source_with_inputs("🐱 🟰 ⌨️ ☑️ 🔚", vec!["yes".to_string()], &float_ops)
        .expect_err("a word other than true or false should fail");
    assert_eq!(error.diagnostics[0].message, "boolean input must be ✅, ❌, true, or false");
}

#[test]
fn function_rules_are_checked() {
    assert!(check_error("🧩 🧮 📚 🐶 📚 🔓 🤔 ✅ 🔓 ↩️ 🐶 🔚 🔒 🔒").contains("does not return a value on every path"));
    assert!(check_error("🧩 🧮 📚 📚 🔓 ↩️ 1️⃣ 🔚 🔒 🧩 🧮 📚 📚 🔓 ↩️ 2️⃣ 🔚 🔒").contains("already defined"));
    assert!(check_error("🧩 🧮 📚 🐶 📚 🔓 ↩️ 🐶 🔚 🔒 📢 📞 🧮 📚 📚 🔚").contains("expects 1 arguments but received 0"));
    assert!(check_error("📢 📞 🧮 📚 📚 🔚").contains("is not defined"));
    assert!(check_error("🐶 🟰 1️⃣ 🔚 🧩 🧮 📚 🐶 📚 🔓 ↩️ 🐶 🔚 🔒").contains("conflicts with a top-level variable"));
}

#[test]
fn loop_alone_does_not_count_as_returning() {
    assert!(check_error("🧩 🧮 📚 📚 🔓 🔁 ✅ 🔓 ↩️ 1️⃣ 🔚 🔒 🔒").contains("does not return"));
}

#[test]
fn statements_definitely_return_requires_both_branches() {
    let tokens = lexer::lex("🤔 ✅ 🔓 ↩️ 1️⃣ 🔚 🔒 😐 🔓 ↩️ 2️⃣ 🔚 🔒").expect("source should lex");
    let program = parser::parse(tokens).expect("source should parse");
    assert!(semantic::statements_definitely_return(&program.statements));
    let tokens = lexer::lex("🤔 ✅ 🔓 ↩️ 1️⃣ 🔚 🔒").expect("source should lex");
    let program = parser::parse(tokens).expect("source should parse");
    assert!(!semantic::statements_definitely_return(&program.statements));
}

#[test]
fn conversion_errors_name_the_problem() {
    assert_eq!(run_error("📢 🔄 🔢 ✅ 🔚").as_str(), "integer conversion requires text");
    assert_eq!(run("📢 🔄 🔢 💬 -42 💬 🔚"), vec!["-42"]);
}

#[test]
fn step_limit_zero_stops_before_the_first_instruction() {
    let bytecode = compile_source("📢 1️⃣ 🔚").expect("source should compile");
    let error = vm::execute_with_step_limit(&bytecode, 0, &float_ops).expect_err("no step is allowed");
    assert!(error.output.is_empty());
    assert_eq!(
        error.diagnostics[0].message,
        "execution step limit reached; the program may contain a non-terminating loop"
    );
    let output = vm::execute_with_limit(&bytecode, ExecutionLimit::Steps(2), &float_ops).expect("two steps suffice");
    assert_eq!(output, vec!["1"]);
}

#[test]
fn empty_bytecode_prints_nothing() {
    let output = vm::execute(&[], &float_ops).expect("nothing to run");
    assert!(output.is_empty());
}

#[test]
fn invalid_jump_target_is_reported() {
    let error = vm::execute(&[Instruction::Jump(5)], &float_ops).expect_err("jump past the end");
    assert_eq!(error.diagnostics[0].message, "invalid jump target 5");
    let output = vm::execute(&[Instruction::Jump(1)], &float_ops).expect("jump to the end finishes");
    assert!(output.is_empty());
}

#[test]
fn return_outside_a_function_is_reported() {
    let error = vm::execute(
        &[Instruction::LoadConst(Value::Num(Int::from_i64(1))), Instruction::Return],
        &float_ops,
    )
    .expect_err("no caller to return to");
    assert_eq!(error.diagnostics[0].message, "return executed outside a function");
}

#[test]
fn stack_underflow_names_the_operation() {
    let error = vm::execute(&[Instruction::Print], &float_ops).expect_err("nothing to print");
    assert_eq!(error.diagnostics[0].message, "stack underflow during print");
}

#[test]
fn step_limited_run_keeps_output_before_the_limit() {
    let error = run_source_with_step_limit("📢 1️⃣ 🔚 🔁 ✅ 🔓 🔒", 50, &float_ops).expect_err("loop never ends");
    assert_eq!(error.output, vec!["1"]);
    assert!(error.diagnostics[0].message.contains("step limit"));
}

#[test]
fn browser_run_reports_output_and_input_requests() {
    let response = run_source_for_browser("🐶 🟰 5️⃣ 🔚\n📢 🐶 🔚", &[], &float_ops);
    assert!(response.ok);
    assert_eq!(response.output, vec!["5".to_string()]);
    assert!(response.diagnostics.is_empty());

    let response = run_source_for_browser("📢 1️⃣ 🔚 🐶 🟰 ⌨️ 🔤 🔚 📢 🐶 🔚", &[], &float_ops);
    assert!(!response.ok);
    assert_eq!(response.output, vec!["1".to_string()]);
    assert_eq!(response.input_request, Some("text".to_string()));
    assert!(response.diagnostics.is_empty());

    let response = run_source_for_browser("🐶 🟰 ⌨️ 🔤 🔚 📢 🐶 🔚", &["hi".to_string()], &float_ops);
    assert!(response.ok);
    assert_eq!(response.output, vec!["hi".to_string()]);
}

#[test]
fn browser_run_enforces_the_ide_step_limit() {
    assert_eq!(IDE_STEP_LIMIT, 100_000);
    let response = run_source_for_browser("🔁 ✅ 🔓 🔒", &[], &float_ops);
    assert!(!response.ok);
    assert!(response.diagnostics[0].message.contains("step limit"));
    assert_eq!(response.input_request, None);
}

#[test]
fn browser_diagnostics_carry_source_locations() {
    let response = run_source_for_browser("🐶 🟰 ✅ ➕ 1️⃣ 🔚", &[], &float_ops);
    assert!(!response.ok);
    assert_eq!(response.diagnostics.len(), 1);
    assert_eq!(response.diagnostics[0].line, Some(1));
    assert!(response.diagnostics[0].start.is_some());
}

#[test]
fn symbol_table_insert_replaces_and_get_reads_back() {
    let mut table = SymbolTable::new();
    assert!(!table.contains("🐶"));
    table.insert("🐶".to_string(), Type::Num);
    table.insert("🐱".to_string(), Type::Str);
    table.insert("🐶".to_string(), Type::List(Box::new(Type::Bool)));
    assert!(table.contains("🐶"));
    assert_eq!(table.get("🐶"), Some(&Type::List(Box::new(Type::Bool))));
    assert_eq!(table.get("🐱"), Some(&Type::Str));
    assert_eq!(table.get("🦊"), None);
}

#[test]
fn span_merge_covers_both_and_keeps_the_first_position() {
    let a = Span::new(4, 8, 2, 3);
    let b = Span::new(1, 6, 1, 2);
    assert_eq!(a.merge(b), Span::new(1, 8, 2, 3));
}

#[test]
fn diagnostic_format_names_file_line_and_column() {
    let d = Diagnostic::at("bad thing", Span::new(0, 1, 3, 7));
    assert_eq!(d.format(Some("a.peps")), "error: bad thing\n --> a.peps:3:7");
    assert_eq!(d.format(None), "error: bad thing\n --> <source>:3:7");
    assert_eq!(Diagnostic::new("plain").format(Some("a.peps")), "error: plain");
}

#[test]
fn lexer_reports_every_invalid_character() {
    let diagnostics = lexer::lex("🐶 = 5 🔚").expect_err("two invalid characters");
    assert_eq!(diagnostics.len(), 2);
}

#[test]
fn checked_program_records_top_level_declarations() {
    let tokens = lexer::lex("🐶 🟰 5️⃣ 🔚 🔐 🐱 🟰 💬x💬 🔚 🤔 ✅ 🔓 🦊 🟰 1️⃣ 🔚 🔒").expect("source should lex");
    let program = parser::parse(tokens).expect("source should parse");
    let checked = semantic::check(program).expect("source should check");
    assert_eq!(checked.symbols.get("🐶"), Some(&Type::Num));
    assert_eq!(checked.symbols.get("🐱"), Some(&Type::Str));
    assert_eq!(checked.symbols.get("🦊"), None);
}

#[test]
fn compiled_jumps_stay_inside_the_program() {
    let bytecode = compile_source(
        "🐶 🟰 0️⃣ 🔚 🔁 🐶 ◀️ 3️⃣ 🔓 🤔 🐶 🟰🟰 1️⃣ 🔓 ⏭️ 🔚 🔒 🐶 🟰 🐶 ➕ 1️⃣ 🔚 🔒 🧩 🧮 📚 📚 🔓 ↩️ 1️⃣ 🔚 🔒 📢 📞 🧮 📚 📚 🔚",
    )
    .expect("source should compile");
    for instruction in &bytecode {
        match instruction {
            Instruction::Jump(target) | Instruction::JumpIfFalse(target) => assert!(*target <= bytecode.len()),
            Instruction::Call { target, .. } => assert!(*target < bytecode.len()),
            _ => {}
        }
    }
}

fn syntax_error(source: &str) -> String {
    let tokens = lexer::lex(source).expect("source should lex");
    let diagnostics = parser::parse(tokens).expect_err("source should not parse");
    assert_eq!(diagnostics.len(), 1);
    diagnostics[0].message.clone()
}

#[test]
fn syntax_errors_name_the_problem() {
    assert_eq!(syntax_error("🍎 🟰 🗺️ 💬a💬 1️⃣ 🗺️"), "expected map entry arrow ➡️");
    assert_eq!(syntax_error("🔒"), "unexpected block end 🔒");
    assert_eq!(syntax_error("📢 🟰"), "expected expression");
    assert_eq!(syntax_error("🧩 🧮 📚 abc 📚 🔓 ↩️ 1️⃣ 🔒"), "parameter names must be exactly one emoji long");
    assert_eq!(syntax_error("🤔 ✅ 🔓 📢 1️⃣"), "missing block end 🔒");
}

#[test]
fn binary_operators_associate_to_the_left() {
    assert_eq!(run("📢 8️⃣ ➖ 3️⃣ ➖ 2️⃣"), vec!["3".to_string()]);
    assert_eq!(run("📢 2️⃣ ➕ 3️⃣ ✖️ 4️⃣"), vec!["14".to_string()]);
}

#[test]
fn constants_and_loop_variables_cannot_reuse_visible_names() {
    assert_eq!(check_error("🐶 🟰 1️⃣\n🔐 🐶 🟰 2️⃣"), "constant 🐶 cannot reuse a visible name");
    assert_eq!(
        check_error("🐾 🟰 1️⃣\n🔁 🐾 🧭 🔢 0️⃣ ➡️ 3️⃣ 🔓\n📢 🐾\n🔒"),
        "loop variable 🐾 is already declared"
    );
}

#[test]
fn block_bindings_end_with_the_block() {
    assert_eq!(run("🤔 ✅ 🔓\n🐱 🟰 5️⃣\n🔒\n📢 🐱"), vec!["🐱".to_string()]);
}

#[test]
fn a_run_within_its_limit_ends_as_without_one_and_one_step_less_cuts_it() {
    let bytecode = compile_source("📢 1️⃣ 🔚 📢 2️⃣ 🔚").expect("source should compile");
    assert_eq!(bytecode.len(), 4);
    let unlimited = vm::execute(&bytecode, &float_ops).expect("runs to the end");
    let limited = vm::execute_with_step_limit(&bytecode, 4, &float_ops).expect("four steps suffice");
    assert_eq!(limited, unlimited);
    let cut = vm::execute_with_step_limit(&bytecode, 3, &float_ops).expect_err("three steps do not");
    assert_eq!(cut.output, vec!["1"]);
    assert_eq!(cut.diagnostics.len(), 1);
    assert!(cut.diagnostics[0].message.contains("step limit"));
}

#[test]
fn queued_inputs_are_taken_in_order_then_required() {
    let bytecode = compile_source("🐶 🟰 ⌨️ 🔢 🔚 🐱 🟰 ⌨️ 🔢 🔚 📢 🐱 🔚 📢 🐶 🔚 🐭 🟰 ⌨️ 🔢 🔚")
        .expect("source should compile");
    let error = vm::execute_with_inputs(&bytecode, vec!["1".to_string(), "2".to_string()], &float_ops)
        .expect_err("the third input is missing");
    assert_eq!(error.output, vec!["2", "1"]);
    assert_eq!(error.diagnostics[0].message, "input required: integer");
}

#[test]
fn floats_inside_lists_and_maps_print_as_the_host_formats_them() {
    assert_eq!(
        run("🐶 🟰 📚 1️⃣.5️⃣ 2️⃣.0️⃣ 📚 🔚 📢 🐶 🔚 🐱 🟰 🗺️ 💬pi💬 ➡️ 3️⃣.2️⃣5️⃣ 🗺️ 🔚 📢 🐱 🔚"),
        vec!["📚 1.5 2 📚", "🗺️ 💬pi💬 ➡️ 3.25 🗺️"]
    );
}
