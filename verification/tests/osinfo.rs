use qeminga::handlers::osinfo::{
    os_info, os_release_from, parse_os_release, read_os_release, FileRead, OsInfo, Uname, Unusable,
    OS_RELEASE_MAX_BYTES,
};
use qeminga::json::to_text;
use serde_json::Value;

const QUOTED: &str = "# a comment\n\
    NAME='Single Quoted \"Name\"'\n\
    \x20 ID=spaced  \n\
    PRETTY_NAME=\"Double Quoted 'Name' # not a comment\"\n\
    VERSION=\"12 (bookworm)\"\n\
    VERSION_ID=12\n\
    VARIANT=unquoted value with spaces\n\
    VARIANT_ID=server\n\
    MACHINE_ID=must-never-be-emitted\n";

const ESCAPED: &str = "NAME=\"Foo \\\"Bar\\\"\"\n\
    PRETTY_NAME=\"Cost: \\$5 and a \\\\ backslash and a \\` backtick\"\n\
    ID=escaped\\$id\n\
    VERSION='lit\\eral'\n\
    VERSION_ID=\"unterminated\n\
    VARIANT=\"Foo\\Bar 1.0 with \\n kept\"\n";

const DEBIAN: &str = "PRETTY_NAME=\"Debian GNU/Linux 12 (bookworm)\"\n\
    NAME=\"Debian GNU/Linux\"\n\
    VERSION_ID=\"12\"\n\
    VERSION=\"12 (bookworm)\"\n\
    VERSION_CODENAME=bookworm\n\
    ID=debian\n\
    HOME_URL=\"https://www.debian.org/\"\n";

const FEDORA: &str = "NAME=\"Fedora Linux\"\n\
    VERSION=\"40 (Server Edition)\"\n\
    ID=fedora\n\
    VERSION_ID=40\n\
    VERSION_CODENAME=\"\"\n\
    PRETTY_NAME=\"Fedora Linux 40 (Server Edition)\"\n\
    HOME_URL=\"https://fedoraproject.org/\"\n\
    VARIANT=\"Server Edition\"\n\
    VARIANT_ID=server\n";

fn field(text: &str, key: &str) -> String {
    parse_os_release(text).get(key).unwrap()
}

fn info(os_release: Option<&str>) -> OsInfo {
    os_info(
        Uname {
            release: "6.8.0-test".into(),
            version: "#1 SMP PREEMPT_DYNAMIC".into(),
            machine: "x86_64".into(),
        },
        &os_release.map(str::to_owned),
    )
}

fn json(info: &OsInfo) -> Value {
    serde_json::from_str(&to_text(&info.to_json())).unwrap()
}

fn keys(value: &Value) -> Vec<&str> {
    let mut keys: Vec<&str> = value
        .as_object()
        .unwrap()
        .keys()
        .map(String::as_str)
        .collect();
    keys.sort_unstable();
    keys
}

fn bytes(text: &str) -> FileRead {
    FileRead::Bytes(text.as_bytes().to_vec())
}

#[test]
fn os_release_file_reads_are_bounded_and_only_absence_falls_through() {
    assert_eq!(
        read_os_release(b"ID=x\n".to_vec()).as_deref(),
        Ok("ID=x\n")
    );
    let big = || vec![b'#'; OS_RELEASE_MAX_BYTES + 1];
    assert_eq!(read_os_release(big()), Err(Unusable::TooLarge));
    assert!(read_os_release(vec![b'#'; OS_RELEASE_MAX_BYTES]).is_ok());
    assert_eq!(
        read_os_release(b"ID=\xff\n".to_vec()),
        Err(Unusable::NotText)
    );
    // The next path is read only when the first is missing; any other failure
    // yields no text at all.
    assert_eq!(
        os_release_from(vec![FileRead::Missing, bytes("ID=x\n")]).as_deref(),
        Some("ID=x\n")
    );
    assert_eq!(
        os_release_from(vec![FileRead::Bytes(big()), bytes("ID=x\n")]),
        None
    );
    assert_eq!(
        os_release_from(vec![FileRead::Failed("EIO".to_owned()), bytes("ID=x\n")]),
        None
    );
    assert_eq!(
        os_release_from(vec![FileRead::Missing, FileRead::Missing]),
        None
    );
}

#[test]
fn parse_os_release_handles_quotes_and_escapes() {
    assert_eq!(field(QUOTED, "NAME"), "Single Quoted \"Name\"");
    assert_eq!(field(QUOTED, "ID"), "spaced");
    assert_eq!(
        field(QUOTED, "PRETTY_NAME"),
        "Double Quoted 'Name' # not a comment"
    );
    assert_eq!(field(QUOTED, "VERSION"), "12 (bookworm)");
    assert_eq!(field(QUOTED, "VERSION_ID"), "12");
    assert_eq!(field(QUOTED, "VARIANT"), "unquoted value with spaces");
    assert_eq!(field(QUOTED, "VARIANT_ID"), "server");
    assert_eq!(field(QUOTED, "MACHINE_ID"), "must-never-be-emitted");

    assert_eq!(field(ESCAPED, "NAME"), "Foo \"Bar\"");
    assert_eq!(
        field(ESCAPED, "PRETTY_NAME"),
        "Cost: $5 and a \\ backslash and a ` backtick"
    );
    assert_eq!(field(ESCAPED, "ID"), "escaped$id");
    assert_eq!(
        field(ESCAPED, "VERSION"),
        "lit\\eral",
        "single quotes are literal"
    );
    assert_eq!(field(ESCAPED, "VERSION_ID"), "unterminated");
    // Inside double quotes a backslash is literal unless it precedes one of
    // `$`, `` ` ``, `"`, `\` (shell rules, as os-release(5) says).
    assert_eq!(field(ESCAPED, "VARIANT"), "Foo\\Bar 1.0 with \\n kept");

    // Real-world files.
    assert_eq!(
        field(DEBIAN, "PRETTY_NAME"),
        "Debian GNU/Linux 12 (bookworm)"
    );
    assert_eq!(field(DEBIAN, "ID"), "debian");
    assert_eq!(field(FEDORA, "VARIANT_ID"), "server");
    assert_eq!(field(FEDORA, "VERSION_CODENAME"), "");

    // Malformed lines are skipped, later keys win.
    let map = parse_os_release("NOEQUALS\n=novalue\nBAD KEY=1\nID=a\nID=b\n#ID=c\n");
    assert_eq!(map.len(), 1);
    assert_eq!(map.get("ID").as_deref(), Some("b"));
}

#[test]
fn only_whitelisted_keys_are_emitted() {
    let value = json(&info(Some(QUOTED)));
    assert_eq!(
        keys(&value),
        [
            "id",
            "kernel-release",
            "kernel-version",
            "machine",
            "name",
            "pretty-name",
            "variant",
            "variant-id",
            "version",
            "version-id",
        ]
    );
    assert!(!value.to_string().contains("must-never-be-emitted"));
    let fedora = json(&info(Some(FEDORA)));
    assert!(fedora.get("machine-id").is_none());
    assert!(fedora.get("home-url").is_none());
    assert!(fedora.get("HOME_URL").is_none());
    assert_eq!(fedora["variant"], "Server Edition");
}

#[test]
fn missing_file_falls_back_to_usr_lib() {
    let text = os_release_from(vec![FileRead::Missing, bytes(DEBIAN)]);
    assert_eq!(info(text.as_deref()).id.as_deref(), Some("debian"));
    // /etc wins when both exist.
    let text = os_release_from(vec![bytes(FEDORA), bytes(DEBIAN)]);
    assert_eq!(info(text.as_deref()).id.as_deref(), Some("fedora"));
}

#[test]
fn missing_both_yields_kernel_fields_only() {
    let value = json(&info(None));
    assert_eq!(
        keys(&value),
        ["kernel-release", "kernel-version", "machine"]
    );
    // An empty file behaves the same.
    assert_eq!(json(&info(Some(""))), value);
}

#[test]
fn output_uses_qapi_field_names_and_omits_absent_fields() {
    let value = json(&info(Some("ID=x\nVERSION_ID=1\n")));
    assert_eq!(value["id"], "x");
    assert_eq!(value["version-id"], "1");
    assert!(value.get("name").is_none());
    assert!(value.get("pretty-name").is_none());
    assert!(!value.to_string().contains("null"));
    assert!(!value.to_string().contains("version_id"));
}

#[test]
fn uname_fields_are_mapped() {
    let value = json(&info(None));
    assert_eq!(value["kernel-release"], "6.8.0-test");
    assert_eq!(value["kernel-version"], "#1 SMP PREEMPT_DYNAMIC");
    assert_eq!(value["machine"], "x86_64");
}
