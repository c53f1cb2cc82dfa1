use wgsl_includes::{
    find_fault, parse_shader_includes, validate, verdict, Diagnostic, IncludeError, ResolveError,
    SourceSet, EVERY_CAPABILITY, EVERY_VALIDATION_FLAG,
};

const PLAIN: &str = "@fragment\nfn fs_main() -> @location(0) vec4<f32> {\n    return vec4<f32>(1.0, 0.0, 0.0, 1.0);\n}\n";

const WITH_DIRECTIVE: &str = "@include common/math.wgsl\n\n@vertex\nfn vs_main(@builtin(vertex_index) index: u32) -> @builtin(position) vec4<f32> {\n    return vec4<f32>(half(1.0), 0.0, 0.0, 1.0);\n}\n";

const MATH: &str = "@include constants.wgsl\nfn half(v: f32) -> f32 {\n    return v * HALF;\n}\n";

const CONSTANTS: &str = "const HALF: f32 = 0.5;";

const NO_POSITION: &str = "@vertex\nfn vs_main() {\n}\n";

const NOT_WGSL: &str = "fn vs_main( {\n";

const DOUBLE_PRECISION: &str = "fn twice(x: f64) -> f64 {\n    return x + x;\n}\n";

fn shader_files() -> SourceSet {
    let mut sources = SourceSet::new();
    sources.insert("shaders/shader.wgsl".to_string(), PLAIN.to_string());
    sources.insert("shaders/shader_resolve.wgsl".to_string(), WITH_DIRECTIVE.to_string());
    sources.insert("shaders/common/math.wgsl".to_string(), MATH.to_string());
    sources.insert("shaders/common/constants.wgsl".to_string(), CONSTANTS.to_string());
    sources.insert("shaders/no_position.wgsl".to_string(), NO_POSITION.to_string());
    sources.insert("shaders/not_wgsl.wgsl".to_string(), NOT_WGSL.to_string());
    sources
}

#[test]
fn include_wgsl() {
    let shader_src = wgsl_includes::include_wgsl(&shader_files(), "", "shaders/shader.wgsl");
    println!("{:?}", shader_src);
    assert_eq!(shader_src, Ok(PLAIN.to_string()));
}

#[test]
fn include_wgsl_resolve() {
    let shader_src =
        wgsl_includes::include_wgsl(&shader_files(), "", "shaders/shader_resolve.wgsl");
    println!("{:?}", shader_src);
    assert_eq!(
        shader_src,
        Ok("const HALF: f32 = 0.5;\nfn half(v: f32) -> f32 {\n    return v * HALF;\n}\n\n\n@vertex\nfn vs_main(@builtin(vertex_index) index: u32) -> @builtin(position) vec4<f32> {\n    return vec4<f32>(half(1.0), 0.0, 0.0, 1.0);\n}\n".to_string())
    );
}

#[test]
fn shader_is_found_from_the_call_site() {
    let shader_src = wgsl_includes::include_wgsl(&shader_files(), "shaders", "shader.wgsl");
    assert_eq!(shader_src, Ok(PLAIN.to_string()));
    let elsewhere = wgsl_includes::include_wgsl(&shader_files(), "other", "shader.wgsl");
    assert_eq!(
        elsewhere,
        Err(IncludeError::Unresolved(ResolveError::IncludeNotFound {
            path: "other/shader.wgsl".to_string()
        }))
    );
}

#[test]
fn shader_is_the_file_under_the_joined_path() {
    let shader_src = wgsl_includes::include_wgsl(&shader_files(), "shaders", "..");
    assert_eq!(
        shader_src,
        Err(IncludeError::Unresolved(ResolveError::IncludeNotFound {
            path: "shaders/..".to_string()
        }))
    );
    let mut sources = SourceSet::new();
    sources.insert("shaders/shader.wgsl/.".to_string(), format!("@include half.wgsl\n{}", PLAIN));
    sources.insert("shaders/half.wgsl".to_string(), CONSTANTS.to_string());
    assert_eq!(
        wgsl_includes::include_wgsl(&sources, "shaders", "shader.wgsl"),
        Err(IncludeError::Unresolved(ResolveError::IncludeNotFound {
            path: "shaders/shader.wgsl".to_string()
        }))
    );
    assert_eq!(
        wgsl_includes::include_wgsl(&sources, "shaders", "shader.wgsl/."),
        Ok(format!("{}\n{}", CONSTANTS, PLAIN))
    );
}

#[test]
fn directives_of_the_shader_are_taken_from_its_own_directory() {
    let mut sources = SourceSet::new();
    sources.insert("site/shaders/main.wgsl".to_string(), format!("@include half.wgsl\n{}", PLAIN));
    sources.insert("site/shaders/half.wgsl".to_string(), CONSTANTS.to_string());
    sources.insert("site/half.wgsl".to_string(), NOT_WGSL.to_string());
    assert_eq!(
        wgsl_includes::include_wgsl(&sources, "site", "shaders/main.wgsl"),
        Ok(format!("{}\n{}", CONSTANTS, PLAIN))
    );
}

#[test]
fn shader_that_names_itself_is_expanded_once() {
    let mut sources = SourceSet::new();
    sources.insert("shaders/main.wgsl".to_string(), format!("@include main.wgsl\n{}", PLAIN));
    assert_eq!(
        wgsl_includes::include_wgsl(&sources, "shaders", "main.wgsl"),
        Ok(format!("\n{}", PLAIN))
    );
}

#[test]
fn known_shader_without_a_directory_is_refused() {
    let mut sources = SourceSet::new();
    sources.insert(String::new(), PLAIN.to_string());
    assert_eq!(
        wgsl_includes::include_wgsl(&sources, "", ""),
        Err(IncludeError::Unresolved(ResolveError::InvalidIncludePath {
            argument: String::new()
        }))
    );
    assert_eq!(
        wgsl_includes::include_wgsl(&SourceSet::new(), "", ""),
        Err(IncludeError::Unresolved(ResolveError::IncludeNotFound { path: String::new() }))
    );
}

#[test]
fn missing_file_of_a_directive_ends_the_pipeline() {
    let mut sources = SourceSet::new();
    sources.insert("shaders/shader_resolve.wgsl".to_string(), WITH_DIRECTIVE.to_string());
    sources.insert("shaders/common/math.wgsl".to_string(), MATH.to_string());
    let shader_src = wgsl_includes::include_wgsl(&sources, "", "shaders/shader_resolve.wgsl");
    assert_eq!(
        shader_src,
        Err(IncludeError::Unresolved(ResolveError::IncludeNotFound {
            path: "shaders/common/constants.wgsl".to_string()
        }))
    );
}

#[test]
fn unparsable_shader_is_rejected_under_the_path_asked_for() {
    let shader_src = wgsl_includes::include_wgsl(&shader_files(), "", "shaders/not_wgsl.wgsl");
    match shader_src {
        Err(IncludeError::Rejected(diagnostic)) => {
            assert_eq!(diagnostic.path, "shaders/not_wgsl.wgsl");
            assert_eq!(Some(diagnostic.message), find_fault(NOT_WGSL));
        }
        other => panic!("{:?}", other),
    }
}

#[test]
fn invalid_module_is_rejected_under_the_path_asked_for() {
    let shader_src = wgsl_includes::include_wgsl(&shader_files(), "", "shaders/no_position.wgsl");
    assert_eq!(
        shader_src,
        Err(IncludeError::Rejected(Diagnostic {
            path: "shaders/no_position.wgsl".to_string(),
            message: "Entry point vs_main at Vertex is invalid".to_string(),
        }))
    );
}

#[test]
fn validation_failure_differs_from_parse_failure() {
    let parse_failure = validate("shaders/shader.wgsl", NOT_WGSL.to_string()).unwrap_err();
    let validation_failure = validate("shaders/shader.wgsl", NO_POSITION.to_string()).unwrap_err();
    println!("{}", parse_failure.render());
    println!("{}", validation_failure.render());
    assert_eq!(parse_failure.path, "shaders/shader.wgsl");
    assert_eq!(validation_failure.path, "shaders/shader.wgsl");
    assert_ne!(parse_failure.message, validation_failure.message);
    assert_ne!(parse_failure, validation_failure);
    assert_eq!(validation_failure.message, "Entry point vs_main at Vertex is invalid");
    assert!(parse_failure.message.starts_with("expected "));
}

#[test]
fn text_that_parses_can_still_be_invalid() {
    assert!(naga::front::wgsl::parse_str(NO_POSITION).is_ok());
    assert!(naga::front::wgsl::parse_str(NOT_WGSL).is_err());
}

#[test]
fn valid_text_comes_back_unchanged() {
    assert_eq!(validate("shaders/shader.wgsl", PLAIN.to_string()), Ok(PLAIN.to_string()));
    assert_eq!(find_fault(PLAIN), None);
}

#[test]
fn fault_is_the_message_of_the_front_end() {
    let error = naga::front::wgsl::parse_str(NOT_WGSL).unwrap_err();
    assert_eq!(find_fault(NOT_WGSL), Some(error.message().to_string()));
    assert_eq!(find_fault(NOT_WGSL), Some(format!("{}", error)));
    assert_ne!(find_fault(NOT_WGSL), Some(NOT_WGSL.to_string()));
}

#[test]
fn fault_is_the_message_of_the_validator() {
    assert_eq!(
        find_fault(NO_POSITION),
        Some("Entry point vs_main at Vertex is invalid".to_string())
    );
}

#[test]
fn verdict_without_fault_is_the_text() {
    assert_eq!(verdict("a.wgsl", "text".to_string(), None), Ok("text".to_string()));
    assert_eq!(verdict("a.wgsl", String::new(), None), Ok(String::new()));
}

#[test]
fn verdict_with_fault_is_a_diagnostic() {
    assert_eq!(
        verdict("dir/a.wgsl", "text".to_string(), Some("no good".to_string())),
        Err(Diagnostic { path: "dir/a.wgsl".to_string(), message: "no good".to_string() })
    );
}

#[test]
fn diagnostic_is_rendered_as_path_colon_message() {
    let diagnostic =
        Diagnostic { path: "shaders/shader.wgsl".to_string(), message: "no good".to_string() };
    assert_eq!(diagnostic.render(), "shaders/shader.wgsl: no good");
    let bare = Diagnostic { path: String::new(), message: String::new() };
    assert_eq!(bare.render(), ": ");
}

#[test]
fn caller_can_add_the_missing_file_and_ask_again() {
    let disk = [
        ("shaders/shader_resolve.wgsl", WITH_DIRECTIVE),
        ("shaders/common/math.wgsl", MATH),
        ("shaders/common/constants.wgsl", CONSTANTS),
    ];
    let mut sources = SourceSet::new();
    let mut asked: Vec<String> = Vec::new();
    let merged = loop {
        match parse_shader_includes(&sources, "shaders", "shader_resolve.wgsl") {
            Ok(text) => break text,
            Err(ResolveError::IncludeNotFound { path }) => {
                let text = disk.iter().find(|file| file.0 == path).unwrap().1;
                asked.push(path.clone());
                sources.insert(path, text.to_string());
            }
            Err(other) => panic!("{:?}", other),
        }
    };
    assert_eq!(
        asked,
        vec![
            "shaders/shader_resolve.wgsl".to_string(),
            "shaders/common/math.wgsl".to_string(),
            "shaders/common/constants.wgsl".to_string()
        ]
    );
    assert_eq!(
        Ok(merged),
        wgsl_includes::include_wgsl(&shader_files(), "", "shaders/shader_resolve.wgsl")
    );
}

#[test]
fn every_flag_and_capability_is_switched_on() {
    assert_eq!(
        naga::valid::ValidationFlags::from_bits_truncate(EVERY_VALIDATION_FLAG),
        naga::valid::ValidationFlags::all()
    );
    assert_eq!(
        naga::valid::Capabilities::from_bits_truncate(EVERY_CAPABILITY),
        naga::valid::Capabilities::all()
    );
}

#[test]
fn shader_that_needs_a_capability_is_accepted() {
    let module = naga::front::wgsl::parse_str(DOUBLE_PRECISION).unwrap();
    let narrow = naga::valid::Validator::new(
        naga::valid::ValidationFlags::all(),
        naga::valid::Capabilities::empty(),
    )
    .validate(&module);
    assert!(narrow.is_err());
    assert_eq!(find_fault(DOUBLE_PRECISION), None);
    assert_eq!(
        validate("shaders/double.wgsl", DOUBLE_PRECISION.to_string()),
        Ok(DOUBLE_PRECISION.to_string())
    );
}
