use vstd::prelude::*;
use vstd::string::StringExecFns;

verus! {

/// The character of a decimal digit.
pub open spec fn digit(d: nat) -> char {
    if d == 0 {
        '0'
    } else if d == 1 {
        '1'
    } else if d == 2 {
        '2'
    } else if d == 3 {
        '3'
    } else if d == 4 {
        '4'
    } else if d == 5 {
        '5'
    } else if d == 6 {
        '6'
    } else if d == 7 {
        '7'
    } else if d == 8 {
        '8'
    } else {
        '9'
    }
}

/// A number in decimal notation, without leading zeros.
pub open spec fn decimal(n: nat) -> Seq<char>
    decreases n,
{
    if n < 10 {
        seq![digit(n)]
    } else {
        decimal(n / 10).push(digit(n % 10))
    }
}

/// The characters of digits that are held lowest first, highest first.
pub open spec fn highest_first(digits: Seq<u8>) -> Seq<char> {
    Seq::new(digits.len(), |i: int| digit(digits[digits.len() - 1 - i] as nat))
}

/// The path of the file that holds the snapshot of a guild.
pub open spec fn file_path(guild_id: u64) -> Seq<char> {
    "outputs/"@ + decimal(guild_id as nat) + ".json"@
}

fn digit_str(d: u8) -> (s: &'static str)
    requires
        d < 10,
    ensures
        s@ == seq![digit(d as nat)],
{
    proof {
        reveal_strlit("0");
        reveal_strlit("1");
        reveal_strlit("2");
        reveal_strlit("3");
        reveal_strlit("4");
        reveal_strlit("5");
        reveal_strlit("6");
        reveal_strlit("7");
        reveal_strlit("8");
        reveal_strlit("9");
    }
    let s = if d == 0 {
        "0"
    } else if d == 1 {
        "1"
    } else if d == 2 {
        "2"
    } else if d == 3 {
        "3"
    } else if d == 4 {
        "4"
    } else if d == 5 {
        "5"
    } else if d == 6 {
        "6"
    } else if d == 7 {
        "7"
    } else if d == 8 {
        "8"
    } else {
        "9"
    };
    proof {
        assert(s@ =~= seq![digit(d as nat)]);
    }
    s
}

/// The decimal digits of a number, lowest first.
fn digits_of(n: u64) -> (digits: Vec<u8>)
    ensures
        highest_first(digits@) == decimal(n as nat),
        forall|i: int| 0 <= i < digits@.len() ==> digits@[i] < 10,
{
    let mut digits: Vec<u8> = Vec::new();
    digits.push((n % 10) as u8);
    let mut rest: u64 = n / 10;
    proof {
        assert(highest_first(digits@) =~= seq![digit((n % 10) as nat)]);
        if n >= 10 {
            assert(decimal(n as nat) =~= decimal(rest as nat) + highest_first(digits@));
        }
    }
    while rest > 0
        invariant
            digits@.len() > 0,
            forall|i: int| 0 <= i < digits@.len() ==> digits@[i] < 10,
            decimal(n as nat) == if rest > 0 {
                decimal(rest as nat) + highest_first(digits@)
            } else {
                highest_first(digits@)
            },
        decreases rest,
    {
        let ghost before = digits@;
        let ghost r = rest;
        let d: u8 = (rest % 10) as u8;
        digits.push(d);
        rest = rest / 10;
        proof {
            assert(highest_first(digits@) =~= seq![digit(d as nat)] + highest_first(before));
            if r < 10 {
                assert(decimal(r as nat) =~= seq![digit(d as nat)]);
                assert(decimal(n as nat) =~= highest_first(digits@));
            } else {
                assert(decimal(r as nat) =~= decimal(rest as nat).push(digit(d as nat)));
                assert(decimal(n as nat) =~= decimal(rest as nat) + highest_first(digits@));
            }
        }
    }
    digits
}

/// Appends a number in decimal notation to a text.
pub fn push_decimal(text: &mut String, n: u64)
    ensures
        final(text)@ == old(text)@ + decimal(n as nat),
{
    let digits = digits_of(n);
    let ghost start = text@;
    let mut k: usize = digits.len();
    proof {
        assert(highest_first(digits@).take(0) =~= Seq::<char>::empty());
        assert(text@ =~= start + highest_first(digits@).take(0));
    }
    while k > 0
        invariant
            k <= digits@.len(),
            forall|i: int| 0 <= i < digits@.len() ==> digits@[i] < 10,
            text@ == start + highest_first(digits@).take(digits@.len() - k),
        decreases k,
    {
        text.append(digit_str(digits[k - 1]));
        proof {
            let all = highest_first(digits@);
            let done = digits@.len() - k;
            assert(all.take(done + 1) =~= all.take(done) + seq![digit(digits@[k - 1] as nat)]);
            assert(text@ =~= start + all.take(done + 1));
        }
        k -= 1;
    }
    proof {
        let all = highest_first(digits@);
        assert(all.take(all.len() as int) =~= all);
    }
}

/// The path of the file that holds the snapshot of a guild: the directory
/// `outputs`, then the guild's id in decimal notation, then `.json`.
pub fn filename(guild_id: u64) -> (name: String)
    ensures
        name@ == file_path(guild_id),
{
    let mut name = String::from_str("outputs/");
    push_decimal(&mut name, guild_id);
    name.append(".json");
    name
}

/// The largest page of reacting participants that is asked for.
pub const REACTOR_PAGE: u8 = 100;

/// The collection of the participants who reacted to a message with one
/// emoji, page by page: those found so far, and the one after whom the next
/// page starts.
#[derive(Debug)]
pub struct Reactors {
    pub users: Vec<u64>,
    pub after: Option<u64>,
}

/// How the collection goes on after a reply.
#[derive(Debug)]
pub enum ReactorsNext<E> {
    /// Another page is to be fetched.
    More(Reactors),
    /// All participants are found.
    Done(Vec<u64>),
    /// The remote service failed; this is its error.
    Failed(E),
}

impl Reactors {
    /// A collection that has found nobody yet.
    pub fn new() -> (r: Self)
        ensures
            r.users@.len() == 0,
            r.after is None,
    {
        Reactors { users: Vec::new(), after: None }
    }
}

/// Takes the reply to the request for the page of reacting participants
/// after `found.after`, of at most [`REACTOR_PAGE`] of them. The page joins
/// those found. A page that is not full ends the collection; after a full
/// page the next one starts after its last participant. A failure ends the
/// collection with the error as it came.
pub fn get_reactions<E>(found: Reactors, reply: Result<Vec<u64>, E>) -> (r: ReactorsNext<E>)
    ensures
        match reply {
            Err(e) => r == ReactorsNext::<E>::Failed(e),
            Ok(page) => if page@.len() < REACTOR_PAGE {
                r is Done && r->Done_0@ == found.users@ + page@
            } else {
                r is More && r->More_0.users@ == found.users@ + page@ && r->More_0.after == Some(
                    page@.last(),
                )
            },
        },
{
    match reply {
        Err(e) => ReactorsNext::Failed(e),
        Ok(page) => {
            let mut users = found.users;
            let mut page = page;
            let length: usize = page.len();
            users.append(&mut page);
            if length < REACTOR_PAGE as usize {
                ReactorsNext::Done(users)
            } else {
                let last: u64 = users[users.len() - 1];
                ReactorsNext::More(Reactors { users, after: Some(last) })
            }
        },
    }
}

} // verus!
