use server_switcher::servers::{server_by_number, server_from_line, servers_list, SelectionError};

#[test]
fn servers_by_number() {
    assert_eq!(server_by_number(1), Ok("userarea.zenno.io"));
    assert_eq!(server_by_number(2), Ok("userarea.zennolab.com"));
    assert_eq!(server_by_number(4), Ok("userarea-hk.zennolab.com"));
    assert_eq!(server_by_number(0), Err(SelectionError::InvalidNumber(0)));
    assert_eq!(server_by_number(5), Err(SelectionError::InvalidNumber(5)));
    assert_eq!(servers_list().len(), 4);
}

#[test]
fn servers_from_typed_lines() {
    assert_eq!(server_from_line("3\n"), Some("userarea-us.zennolab.com"));
    assert_eq!(server_from_line("1"), Some("userarea.zenno.io"));
    assert_eq!(server_from_line("0\n"), None);
    assert_eq!(server_from_line("5\n"), None);
    assert_eq!(server_from_line("x"), None);
    assert_eq!(server_from_line(""), None);
}
