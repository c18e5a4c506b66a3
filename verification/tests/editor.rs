use lighthouse::config_editor::{
    apply_fix, find_port_config, port_config_candidates, preview_fix, try_apply_fix,
    try_preview_fix,
};
use lighthouse::FixPreview;

#[test]
fn preview_moves_ports_to_the_next_one() {
    let content = "a=1\nPORT=3000 # also 3000\nx";
    let previews = preview_fix("/p/.env", 2, content).unwrap();
    assert_eq!(
        previews,
        vec![
            FixPreview {
                file_path: "/p/.env".to_string(),
                line_number: 2,
                old_line: "PORT=3000 # also 3000".to_string(),
                new_line: "PORT=3001 # also 3000".to_string(),
                old_port: 3000,
                new_port: 3001,
            },
            FixPreview {
                file_path: "/p/.env".to_string(),
                line_number: 2,
                old_line: "PORT=3000 # also 3000".to_string(),
                new_line: "PORT=3000 # also 3001".to_string(),
                old_port: 3000,
                new_port: 3001,
            },
        ]
    );
}

#[test]
fn preview_without_ports_keeps_the_line() {
    let previews = preview_fix("f", 1, "timeout = 30\n").unwrap();
    assert_eq!(previews.len(), 1);
    assert_eq!(previews[0].old_line, "timeout = 30");
    assert_eq!(previews[0].new_line, "timeout = 30");
    assert_eq!(previews[0].old_port, 0);
    assert_eq!(previews[0].new_port, 0);
}

#[test]
fn preview_out_of_range() {
    assert_eq!(
        preview_fix("f", 0, "a\nb\n"),
        Err("Line 0 is out of range (file has 2 lines)".to_string())
    );
    assert_eq!(
        preview_fix("f", 3, "a\nb\n"),
        Err("Line 3 is out of range (file has 2 lines)".to_string())
    );
}

#[test]
fn preview_of_the_last_port_is_refused() {
    assert_eq!(try_preview_fix("f", 1, "PORT=65535\n"), None);
    assert!(try_preview_fix("f", 1, "PORT=8080\n").is_some());
}

#[test]
fn apply_rewrites_one_line() {
    let content = "A=1\r\nPORT=3000\r\nB=3000\n";
    let (new_content, message) = apply_fix("/p/.env", 2, 3005, content).unwrap();
    assert_eq!(new_content, "A=1\r\nPORT=3005\r\nB=3000\n");
    assert_eq!(message, "Updated /p/.env line 2: PORT=3000 -> PORT=3005");
}

#[test]
fn apply_replaces_the_matched_port() {
    let (new_content, _) = apply_fix("f", 1, 9000, "x80801 port 8080").unwrap();
    assert_eq!(new_content, "x80801 port 9000");
    let (new_content, _) = apply_fix("f", 1, 3001, "v=123000 p=3000").unwrap();
    assert_eq!(new_content, "v=123000 p=3001");
    let (new_content, _) = apply_fix("f", 1, 4000, "a 3000 b 3000\n").unwrap();
    assert_eq!(new_content, "a 4000 b 3000\n");
}

#[test]
fn apply_keeps_every_other_byte() {
    let content = "first\n\nPORT=3000\nlast";
    let (new_content, _) = apply_fix("f", 3, 3100, content).unwrap();
    assert_eq!(new_content, "first\n\nPORT=3100\nlast");
    let (new_content, _) = apply_fix("f", 1, 3100, "3000\nx\n").unwrap();
    assert_eq!(new_content, "3100\nx\n");
}

#[test]
fn apply_errors() {
    assert_eq!(
        apply_fix("f", 1, 3001, "port 80\n"),
        Err("No port number found on line 1 of f".to_string())
    );
    assert_eq!(
        apply_fix("f", 2, 3001, "x\n"),
        Err("Line 2 is out of range (file has 1 lines)".to_string())
    );
    assert!(try_apply_fix("f", 1, 3001, "PORT=3000").unwrap().is_ok());
}

#[test]
fn candidate_config_files() {
    let c = port_config_candidates("/p/web");
    assert_eq!(c.len(), 10);
    assert_eq!(c[0], "/p/web/.env");
    assert_eq!(c[9], "/p/web/next.config.ts");
}

#[test]
fn port_config_is_the_first_line_mentioning_the_port() {
    let contents = vec![
        None,
        Some("A=1\n".to_string()),
        Some("PORT=4000\nX=3000\nY=3000\n".to_string()),
    ];
    assert_eq!(
        find_port_config("/p", 3000, &contents),
        Some(("/p/.env.development".to_string(), 2, "X=3000".to_string()))
    );
    assert_eq!(find_port_config("/p", 5000, &contents), None);
}
