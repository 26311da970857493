use control_center::audio::parse_powershell_output;

// ===== parse_powershell_output のテスト =====

#[test]
fn test_success_all_roles_zero() {
    // 全ロールが 0x0 → Ok
    let result = parse_powershell_output("Success(Client-v1): 0x0, 0x0, 0x0", true);
    assert!(result.is_ok(), "全ロール 0x0 は成功とみなすべき");
}

#[test]
fn test_success_vista_client() {
    // VistaClient でも同様
    let result = parse_powershell_output("Success(VistaClient-v1): 0x0, 0x0, 0x0", true);
    assert!(result.is_ok());
}

#[test]
fn test_exit_failure_returns_error() {
    // exit code が 0 以外 → Err
    let result = parse_powershell_output("", false);
    assert!(
        result.is_err(),
        "exit_success=false の場合はエラーを返すべき"
    );
    assert!(result.unwrap_err().contains("終了コードエラー"));
}

#[test]
fn test_error_message_in_stdout_returns_error() {
    // C# 側が "Error: ..." を出力した場合 → Err
    let result = parse_powershell_output(
        "Error: No supported IPolicyConfig interface found.",
        true,
    );
    assert!(
        result.is_err(),
        "stdout に 'Error:' が含まれる場合はエラーを返すべき"
    );
    assert!(result.unwrap_err().contains("SetDefaultEndpoint失敗"));
}

#[test]
fn test_nonzero_hresult_returns_error() {
    // 0x80070005 (アクセス拒否) などの非ゼロ HRESULT → Err
    let result =
        parse_powershell_output("Success(Client-v1): 0x80070005, 0x0, 0x0", true);
    assert!(
        result.is_err(),
        "非ゼロ HRESULT が含まれる場合はエラーを返すべき"
    );
}

#[test]
fn test_empty_stdout_exit_success_is_ok() {
    // 出力なし・成功終了 → Ok（PowerShell が何も出力しないケース）
    let result = parse_powershell_output("", true);
    assert!(result.is_ok());
}

#[test]
fn test_partial_nonzero_hresult_returns_error() {
    // 最初のロールのみ成功・残り失敗
    let result =
        parse_powershell_output("Success(Client-v1): 0x0, 0x80004005, 0x0", true);
    assert!(
        result.is_err(),
        "一部のロールが非ゼロの場合はエラーを返すべき"
    );
}

#[test]
fn test_stdout_with_trailing_newline_ok() {
    // 末尾に改行が含まれる場合でも正しく判定
    let result = parse_powershell_output("Success(Client-v1): 0x0, 0x0, 0x0\r\n", true);
    assert!(result.is_ok(), "末尾改行付きでも全ロール 0x0 は成功");
}
