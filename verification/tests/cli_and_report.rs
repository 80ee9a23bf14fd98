use faultcalc_core::cli::{
    base64_encode, decimal_text, embed_wasm_html, is_unsafe_path, mime_for, parse_calc_options,
    parse_command, parse_port, parse_serve_options, replace_all, response_header, route_request,
    CalcArgsError, Command, Route,
};
use faultcalc_core::report::{
    csv_escape, csv_fault_row, csv_line, csv_report_header, join_texts, no_positive_path_warning,
    no_zero_path_warning, FaultKind, FaultRow,
};

fn args(v: &[&str]) -> Vec<String> {
    v.iter().map(|s| s.to_string()).collect()
}

#[test]
fn base64_matches_rfc4648_vectors() {
    assert_eq!(base64_encode(b""), "");
    assert_eq!(base64_encode(b"f"), "Zg==");
    assert_eq!(base64_encode(b"fo"), "Zm8=");
    assert_eq!(base64_encode(b"foo"), "Zm9v");
    assert_eq!(base64_encode(b"foob"), "Zm9vYg==");
    assert_eq!(base64_encode(b"fooba"), "Zm9vYmE=");
    assert_eq!(base64_encode(b"foobar"), "Zm9vYmFy");
}

#[test]
fn base64_uses_plus_and_slash_for_high_values() {
    assert_eq!(base64_encode(&[0xfb, 0xff, 0xbf]), "+/+/");
    assert_eq!(base64_encode(&[0x00, 0x00, 0x00]), "AAAA");
    assert_eq!(base64_encode(&[0xff]), "/w==");
}

#[test]
fn base64_length_is_four_per_started_group() {
    for n in 0..20usize {
        let data = vec![7u8; n];
        assert_eq!(base64_encode(&data).len(), (n + 2) / 3 * 4);
    }
}

#[test]
fn mime_types_follow_the_extension() {
    assert_eq!(mime_for("html"), "text/html; charset=utf-8");
    assert_eq!(mime_for("js"), "text/javascript; charset=utf-8");
    assert_eq!(mime_for("wasm"), "application/wasm");
    assert_eq!(mime_for("json"), "application/json; charset=utf-8");
    assert_eq!(mime_for("csv"), "text/csv; charset=utf-8");
    assert_eq!(mime_for("css"), "text/css; charset=utf-8");
    assert_eq!(mime_for("svg"), "image/svg+xml");
    assert_eq!(mime_for("png"), "application/octet-stream");
    assert_eq!(mime_for(""), "application/octet-stream");
    assert_eq!(mime_for("HTML"), "application/octet-stream");
}

#[test]
fn calc_options_read_input_and_outputs() {
    let o = parse_calc_options(&args(&["case.json"])).unwrap();
    assert_eq!(o.input, "case.json");
    assert_eq!(o.json_out, None);
    assert_eq!(o.csv_out, None);

    let o = parse_calc_options(&args(&["case.json", "--csv", "r.csv", "--json", "r.json"])).unwrap();
    assert_eq!(o.input, "case.json");
    assert_eq!(o.json_out.as_deref(), Some("r.json"));
    assert_eq!(o.csv_out.as_deref(), Some("r.csv"));

    let o = parse_calc_options(&args(&["c", "--json", "a", "--json", "b"])).unwrap();
    assert_eq!(o.json_out.as_deref(), Some("b"));
}

#[test]
fn calc_options_refusals() {
    assert!(matches!(parse_calc_options(&args(&[])), Err(CalcArgsError::MissingInput)));
    assert!(matches!(
        parse_calc_options(&args(&["c", "--json"])),
        Err(CalcArgsError::MissingJsonPath)
    ));
    assert!(matches!(
        parse_calc_options(&args(&["c", "--csv"])),
        Err(CalcArgsError::MissingCsvPath)
    ));
    match parse_calc_options(&args(&["c", "--json", "a", "--pdf", "x"])) {
        Err(CalcArgsError::UnknownOption(o)) => assert_eq!(o, "--pdf"),
        other => panic!("unexpected {other:?}"),
    }
}

#[test]
fn requests_are_routed_by_method_and_path() {
    assert!(matches!(route_request("POST / HTTP/1.1\r\n\r\n"), Route::MethodNotAllowed));
    assert!(matches!(route_request(""), Route::MethodNotAllowed));
    assert!(matches!(route_request("GET / HTTP/1.1\r\nHost: x\r\n\r\n"), Route::DefaultDocument));
    assert!(matches!(route_request("GET"), Route::DefaultDocument));
    assert!(matches!(route_request("GET /?case=1 HTTP/1.1"), Route::DefaultDocument));
    match route_request("GET //app.js?v=2 HTTP/1.1\r\n") {
        Route::File(p) => assert_eq!(p, "app.js"),
        other => panic!("unexpected {other:?}"),
    }
    match route_request("  GET   /css/site.css   HTTP/1.1\n") {
        Route::File(p) => assert_eq!(p, "css/site.css"),
        other => panic!("unexpected {other:?}"),
    }
    assert!(matches!(route_request("GET /../secret HTTP/1.1"), Route::BadPath));
    assert!(matches!(route_request("GET /a\\b HTTP/1.1"), Route::BadPath));
}

#[test]
fn unsafe_paths_are_recognised() {
    assert!(is_unsafe_path("a/../b"));
    assert!(is_unsafe_path("/etc/passwd"));
    assert!(is_unsafe_path("dir\\file"));
    assert!(!is_unsafe_path("web/index.html"));
    assert!(!is_unsafe_path("a.b/c"));
}

#[test]
fn csv_fields_are_quoted_only_when_needed() {
    assert_eq!(csv_escape("plain"), "plain");
    assert_eq!(csv_escape(""), "");
    assert_eq!(csv_escape("a,b"), "\"a,b\"");
    assert_eq!(csv_escape("say \"hi\""), "\"say \"\"hi\"\"\"");
    assert_eq!(csv_escape("two\nlines"), "\"two\nlines\"");
    assert_eq!(csv_escape("cr\r"), "\"cr\r\"");
}

#[test]
fn csv_line_joins_with_commas_and_ends_the_record() {
    let fields = vec!["B1".to_string(), "\"Main, 480\"".to_string(), String::new()];
    assert_eq!(csv_line(&fields), "B1,\"Main, 480\",\n");
    assert_eq!(csv_line(&Vec::new()), "\n");
}

#[test]
fn fault_kinds_come_in_report_order_with_labels() {
    let labels: Vec<&str> = FaultKind::all().iter().map(|k| k.label()).collect();
    assert_eq!(labels, vec!["3PH", "SLG", "LL", "DLG"]);
}

#[test]
fn missing_path_notes_depend_on_the_networks_a_fault_needs() {
    assert_eq!(FaultKind::ThreePhase.missing_path_note(true, false, false), None);
    assert_eq!(
        FaultKind::ThreePhase.missing_path_note(false, true, true),
        Some("no positive-sequence source path")
    );
    assert_eq!(FaultKind::LineLine.missing_path_note(true, true, false), None);
    assert_eq!(
        FaultKind::LineLine.missing_path_note(true, false, true),
        Some("missing positive or negative sequence source path")
    );
    assert_eq!(FaultKind::SingleLineGround.missing_path_note(true, true, true), None);
    assert_eq!(
        FaultKind::SingleLineGround.missing_path_note(true, true, false),
        Some("missing positive, negative, or zero sequence return path")
    );
    assert_eq!(
        FaultKind::DoubleLineGround.missing_path_note(true, true, false),
        Some("missing positive, negative, or zero sequence return path")
    );
}

#[test]
fn path_warnings_name_the_bus() {
    assert_eq!(
        no_positive_path_warning("MCC-1"),
        "bus MCC-1 has no positive-sequence source path"
    );
    assert_eq!(
        no_zero_path_warning("MCC-1"),
        "bus MCC-1 has no zero-sequence return path; SLG/DLG ground current is zero in this model"
    );
}

#[test]
fn command_words_select_the_command() {
    assert!(matches!(parse_command(&args(&[])), Command::Help));
    assert!(matches!(parse_command(&args(&["-h"])), Command::Help));
    assert!(matches!(parse_command(&args(&["--help", "calc"])), Command::Help));
    assert!(matches!(parse_command(&args(&["sample"])), Command::Sample));
    assert!(matches!(parse_command(&args(&["calc", "case.json"])), Command::Calc));
    assert!(matches!(parse_command(&args(&["serve"])), Command::Serve));
    assert!(matches!(parse_command(&args(&["embed-wasm", "a", "b", "c"])), Command::EmbedWasm));
    assert!(matches!(parse_command(&args(&["version"])), Command::Version));
    match parse_command(&args(&["Calc"])) {
        Command::Unknown(w) => assert_eq!(w, "Calc"),
        other => panic!("unexpected {other:?}"),
    }
}

#[test]
fn ports_are_read_as_std_reads_u16() {
    for text in [
        "8080", "0", "65535", "65536", "+80", "+", "-1", "", "0080", "80a", " 80", "99999999999",
        "-0", "++1", "1_000",
    ] {
        assert_eq!(parse_port(text), text.parse::<u16>().ok(), "{text:?}");
    }
}

#[test]
fn serve_options_default_to_web_on_8080() {
    let o = parse_serve_options(&args(&[]));
    assert_eq!(o.dir, "web");
    assert_eq!(o.port, 8080);
    let o = parse_serve_options(&args(&["site", "9000"]));
    assert_eq!(o.dir, "site");
    assert_eq!(o.port, 9000);
    let o = parse_serve_options(&args(&["site", "http"]));
    assert_eq!(o.port, 8080);
    let o = parse_serve_options(&args(&["site", "70000"]));
    assert_eq!(o.port, 8080);
}

#[test]
fn replace_all_matches_str_replace() {
    for (text, pattern, with) in [
        ("aaa", "aa", "b"),
        ("abcabc", "abc", ""),
        ("no match", "xyz", "q"),
        ("__X____X__", "__X__", "[x]"),
        ("", "a", "b"),
        ("ababab", "ab", "abab"),
    ] {
        assert_eq!(replace_all(text, pattern, with), text.replace(pattern, with), "{text:?}");
    }
}

#[test]
fn workstation_page_embeds_module_and_note() {
    let template = "<script>const W=\"__WASM_BASE64__\";</script><p>__BUILD_NOTE__</p>__WASM_BASE64__";
    assert_eq!(
        embed_wasm_html(template, "AGFzbQ=="),
        "<script>const W=\"AGFzbQ==\";</script><p>standalone embedded Rust WASM</p>AGFzbQ=="
    );
}

#[test]
fn response_header_states_length_and_closes() {
    assert_eq!(
        response_header("200 OK", "text/plain", 18),
        "HTTP/1.1 200 OK\r\nContent-Type: text/plain\r\nContent-Length: 18\r\nCache-Control: no-store\r\nConnection: close\r\n\r\n"
    );
    for n in [0usize, 7, 10, 99, 100, 4096, 1234567890, usize::MAX] {
        assert_eq!(decimal_text(n), n.to_string());
    }
}

#[test]
fn join_texts_matches_slice_join() {
    for parts in [vec![], vec!["a"], vec!["a", "b", "c"], vec!["", ""]] {
        let owned: Vec<String> = parts.iter().map(|p| p.to_string()).collect();
        assert_eq!(join_texts(&owned, "; "), owned.join("; "));
    }
}

#[test]
fn report_rows_escape_texts_but_not_numbers() {
    assert_eq!(
        csv_report_header(),
        "bus_id,bus,kv_ll,fault,sym_ka,peak_asym_ka,asym_rms_ka,x_over_r,ground_return_ka,z_eq_r_pu,z_eq_x_pu,notes\n"
    );
    let row = FaultRow {
        bus_id: "b1".to_string(),
        bus: "Main, 480 V".to_string(),
        kv_ll: "0.480000".to_string(),
        kind: "SLG".to_string(),
        sym_ka: "0.000000".to_string(),
        peak_asym_ka: String::new(),
        asym_rms_ka: String::new(),
        x_over_r: String::new(),
        ground_return_ka: String::new(),
        z_eq_r_pu: String::new(),
        z_eq_x_pu: String::new(),
        notes: vec!["missing positive, negative, or zero sequence return path".to_string(), "see \"B\"".to_string()],
    };
    assert_eq!(
        csv_fault_row(&row),
        "b1,\"Main, 480 V\",0.480000,SLG,0.000000,,,,,,,\"missing positive, negative, or zero sequence return path; see \"\"B\"\"\"\n"
    );
}
