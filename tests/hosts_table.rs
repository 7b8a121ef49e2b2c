use open_mantle_proxy::hosts::{is_entry, HostsTable};
use open_mantle_proxy::intercept::{local_address, spoofed_host};

fn table(lines: &[&str]) -> HostsTable {
    HostsTable::from_lines(lines.iter().map(|l| l.as_bytes().to_vec()).collect())
}

fn text(t: &HostsTable) -> String {
    String::from_utf8(t.render()).unwrap()
}

#[test]
fn activate_then_deactivate_keeps_unrelated_lines() {
    let t = table(&["127.0.0.1 localhost", "# comment", "1.2.3.4 s.optifine.net", "::1 ip6-localhost"]);
    let host = spoofed_host();
    let on = t.activate(&host, &local_address());
    assert_eq!(
        text(&on),
        "127.0.0.1 localhost\n# comment\n::1 ip6-localhost\n127.0.0.1 s.optifine.net"
    );
    let off = on.deactivate(&host);
    assert_eq!(text(&off), "127.0.0.1 localhost\n# comment\n::1 ip6-localhost");
}

#[test]
fn activate_twice_gives_one_entry() {
    let t = table(&["127.0.0.1 localhost", "127.0.0.1 s.optifine.net  "]);
    let host = spoofed_host();
    let once = t.activate(&host, &local_address());
    let twice = once.activate(&host, &local_address());
    let entries = twice.lines.iter().filter(|l| is_entry(l, &host)).count();
    assert_eq!(entries, 1);
    assert_eq!(text(&twice), text(&once));
    assert_eq!(text(&once), "127.0.0.1 localhost\n127.0.0.1 s.optifine.net");
}

#[test]
fn deactivate_only_exact_host() {
    let t = table(&["1.1.1.1 xs.optifine.net", "2.2.2.2\ts.optifine.net", "s.optifine.net"]);
    let off = t.deactivate(&spoofed_host());
    assert_eq!(text(&off), "1.1.1.1 xs.optifine.net\ns.optifine.net");
}

#[test]
fn deactivate_removes_every_form_of_entry() {
    let t = table(&[
        "127.0.0.1 s.optifine.net  ",
        "127.0.0.1 s.optifine.net # redirect",
        "127.0.0.1 s.optifine.net#x",
        "127.0.0.1 other s.optifine.net alias",
        "127.0.0.1 localhost # s.optifine.net",
        "127.0.0.1 s.optifine.network",
    ]);
    let off = t.deactivate(&spoofed_host());
    assert_eq!(text(&off), "127.0.0.1 localhost # s.optifine.net\n127.0.0.1 s.optifine.network");
}

#[test]
fn activate_keeps_final_line_feed() {
    let raw = b"127.0.0.1 localhost\n";
    let t = HostsTable::parse(raw);
    assert_eq!(t.render(), raw.to_vec());
    let on = t.activate(&spoofed_host(), &local_address());
    assert_eq!(text(&on), "127.0.0.1 localhost\n127.0.0.1 s.optifine.net\n");
    let off = on.deactivate(&spoofed_host());
    assert_eq!(off.render(), raw.to_vec());
}

#[test]
fn parse_and_render_round_trip() {
    for raw in [&b""[..], b"a", b"a\n", b"a\r\nb\n\n", b"\n", b"x\xffy\nz"] {
        assert_eq!(HostsTable::parse(raw).render(), raw.to_vec());
    }
    assert_eq!(HostsTable::parse(b"a\nb").lines, vec![b"a".to_vec(), b"b".to_vec()]);
}

#[test]
fn render_empty_and_single() {
    assert_eq!(text(&table(&[])), "");
    assert_eq!(text(&table(&["a"])), "a");
    assert_eq!(text(&table(&["a", "", "b"])), "a\n\nb");
}

#[test]
fn crlf_entry_is_removed() {
    let raw = b"127.0.0.1 localhost\r\n127.0.0.1 s.optifine.net\r\n::1 localhost\r\n";
    let t = HostsTable::parse(raw);
    assert!(is_entry(b"127.0.0.1 s.optifine.net\r", &spoofed_host()));
    let off = t.deactivate(&spoofed_host());
    assert_eq!(off.render(), b"127.0.0.1 localhost\r\n::1 localhost\r\n".to_vec());
    let on = t.activate(&spoofed_host(), &local_address());
    let twice = on.activate(&spoofed_host(), &local_address());
    assert_eq!(twice.lines.iter().filter(|l| is_entry(l, &spoofed_host())).count(), 1);
}

#[test]
fn activate_then_deactivate_gives_back_file_bytes() {
    let raw = b"127.0.0.1 localhost\n::1 localhost\n";
    let on = HostsTable::parse(raw).activate(&spoofed_host(), &local_address());
    let reread = HostsTable::parse(&on.render());
    assert_eq!(reread.deactivate(&spoofed_host()).render(), raw.to_vec());
}

#[test]
fn activate_replaces_old_entry_in_file() {
    let raw = b"127.0.0.1 localhost\n10.0.0.5 s.optifine.net\n";
    let on = HostsTable::parse(raw).activate(&spoofed_host(), &local_address());
    assert_eq!(on.render(), b"127.0.0.1 localhost\n127.0.0.1 s.optifine.net\n".to_vec());
}
