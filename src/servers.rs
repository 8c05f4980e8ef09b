use vstd::prelude::*;

verus! {

/// How many lines an operator may type before the choice of a server fails.
pub const INPUT_ATTEMPTS: usize = 3;

/// The servers that an installation can be pointed at, in the order in which
/// they are offered (numbered from 1).
pub open spec fn server_domains() -> Seq<Seq<char>> {
    seq![
        "userarea.zenno.io"@,
        "userarea.zennolab.com"@,
        "userarea-us.zennolab.com"@,
        "userarea-hk.zennolab.com"@,
    ]
}

/// The servers that can be chosen, in order.
pub fn servers_list() -> (r: Vec<&'static str>)
    ensures
        r@.map_values(|s: &'static str| s@) == server_domains(),
{
    let mut r: Vec<&'static str> = Vec::new();
    r.push("userarea.zenno.io");
    r.push("userarea.zennolab.com");
    r.push("userarea-us.zennolab.com");
    r.push("userarea-hk.zennolab.com");
    assert(r@.map_values(|s: &'static str| s@) =~= server_domains());
    r
}

/// Why no server was chosen.
#[derive(Clone, Copy, Debug, PartialEq, Eq, Structural)]
pub enum SelectionError {
    /// The number given is not that of a server.
    InvalidNumber(usize),
    /// No line typed within the allowed attempts named a server.
    TooManyAttempts,
}

/// The server with the given number, counted from 1.
pub fn server_by_number(number: usize) -> (r: Result<&'static str, SelectionError>)
    ensures
        1 <= number <= server_domains().len() ==> r is Ok && r->Ok_0@ == server_domains()[number
            - 1],
        !(1 <= number <= server_domains().len()) ==> r == Err::<&'static str, SelectionError>(
            SelectionError::InvalidNumber(number),
        ),
{
    let list = servers_list();
    if number == 0 || number > list.len() {
        return Err(SelectionError::InvalidNumber(number));
    }
    proof {
        assert(list@.map_values(|s: &'static str| s@)[number - 1] == list@[number - 1]@);
    }
    Ok(list[number - 1])
}

/// The server that a typed line picks: its first character is the digit of a
/// server's number; `None` for any other line.
pub open spec fn chosen_by_line(line: Seq<char>) -> Option<Seq<char>> {
    if line.len() > 0 && '1' <= line[0] <= '9' && (line[0] as int - '0' as int)
        <= server_domains().len() {
        Some(server_domains()[line[0] as int - '1' as int])
    } else {
        None
    }
}

/// The server that a typed line picks, if it picks one.
pub fn server_from_line(line: &str) -> (r: Option<&'static str>)
    ensures
        match chosen_by_line(line@) {
            Some(d) => r is Some && r->Some_0@ == d,
            None => r is None,
        },
{
    if line.unicode_len() == 0 {
        return None;
    }
    let c = line.get_char(0);
    if c < '1' || c > '9' {
        return None;
    }
    let digit = (c as u32 - '0' as u32) as usize;
    let list = servers_list();
    if digit > list.len() {
        return None;
    }
    proof {
        assert(list@.map_values(|s: &'static str| s@)[digit - 1] == list@[digit - 1]@);
    }
    Some(list[digit - 1])
}

} // verus!
