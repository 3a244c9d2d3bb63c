use vstd::prelude::*;
use vstd::string::*;

use crate::config::{Connection, ConnectionView};
use crate::text::{decimal, decimal_string, is_blank, is_blank_str};

verus! {

/// The `[user@]host` argument of `ssh`: the user is put in front only when it is
/// given and not blank.
pub open spec fn destination_spec(c: ConnectionView) -> Seq<char> {
    if c.user is Some && !is_blank(c.user->0) {
        c.user->0 + "@"@ + c.host
    } else {
        c.host
    }
}

/// `-o` in front of each option, in order.
#[verifier::opaque]
pub open spec fn option_args(options: Seq<Seq<char>>) -> Seq<Seq<char>> {
    Seq::new(2 * options.len(), |k: int| if k % 2 == 0 { "-o"@ } else { options[k / 2] })
}

/// The arguments handed to `ssh` for a connection: the destination, then
/// `-p <port>` when a port is given, `-i <identity file>` when one is given, then
/// `-o <option>` for each option in order.
pub open spec fn ssh_args_spec(c: ConnectionView) -> Seq<Seq<char>> {
    seq![destination_spec(c)] + (if c.port is Some {
        seq!["-p"@, decimal(c.port->0 as nat)]
    } else {
        Seq::empty()
    }) + (if c.identity_file is Some {
        seq!["-i"@, c.identity_file->0]
    } else {
        Seq::empty()
    }) + option_args(c.options)
}

/// The destination `ssh` connects to: `user@host`, or `host` when no user is set.
pub fn destination(connection: &Connection) -> (r: String)
    ensures
        r@ == destination_spec(connection@),
{
    match &connection.user {
        Some(user) => {
            if !is_blank_str(user.as_str()) {
                let mut r = user.clone();
                r.append("@");
                r.append(connection.host.as_str());
                return r;
            }
        },
        None => {},
    }
    connection.host.clone()
}

fn push_text(v: &mut Vec<String>, s: String)
    ensures
        final(v).deep_view() == old(v).deep_view().push(s@),
{
    let ghost before = v.deep_view();
    v.push(s);
    assert(v.deep_view() =~= before.push(s@));
}

/// The command-line arguments for `ssh` that connect to `connection`.
pub fn build_ssh_args(connection: &Connection) -> (r: Vec<String>)
    ensures
        r.deep_view() == ssh_args_spec(connection@),
{
    let ghost c = connection@;
    let mut args: Vec<String> = Vec::new();
    push_text(&mut args, destination(connection));
    let ghost port_part: Seq<Seq<char>> = if c.port is Some {
        seq!["-p"@, decimal(c.port->0 as nat)]
    } else {
        Seq::empty()
    };
    let ghost id_part: Seq<Seq<char>> = if c.identity_file is Some {
        seq!["-i"@, c.identity_file->0]
    } else {
        Seq::empty()
    };
    if let Some(port) = connection.port {
        push_text(&mut args, String::from_str("-p"));
        push_text(&mut args, decimal_string(port as u64));
    }
    assert(args.deep_view() =~= seq![destination_spec(c)] + port_part);
    if let Some(identity_file) = &connection.identity_file {
        push_text(&mut args, String::from_str("-i"));
        push_text(&mut args, identity_file.clone());
    }
    let ghost head = seq![destination_spec(c)] + port_part + id_part;
    assert(args.deep_view() =~= head);
    proof {
        reveal(option_args);
        assert(head + option_args(c.options.take(0)) =~= head);
    }
    let mut i: usize = 0;
    while i < connection.options.len()
        invariant
            c == connection@,
            i <= connection.options.len(),
            args.deep_view() == head + option_args(c.options.take(i as int)),
        decreases connection.options.len() - i,
    {
        let ghost before = args.deep_view();
        push_text(&mut args, String::from_str("-o"));
        push_text(&mut args, connection.options[i].clone());
        proof {
            reveal(option_args);
            assert(c.options[i as int] == connection.options@[i as int]@);
            assert(option_args(c.options.take(i + 1)) =~= option_args(c.options.take(i as int)).push(
                "-o"@,
            ).push(c.options[i as int]));
        }
        i = i + 1;
    }
    assert(c.options.take(i as int) =~= c.options);
    args
}

/// The options come last, each as `-o` followed by the option, in order: for
/// the `k`-th option, the pair stands at `2k` places after the end of the
/// arguments before the options.
pub proof fn lemma_ssh_option_pair(c: ConnectionView, k: int)
    requires
        0 <= k < c.options.len(),
    ensures
        ssh_args_spec(c)[ssh_args_spec(c).len() - 2 * c.options.len() + 2 * k] == "-o"@,
        ssh_args_spec(c)[ssh_args_spec(c).len() - 2 * c.options.len() + 2 * k + 1] == c.options[k],
{
    let d = seq![destination_spec(c)];
    let pp: Seq<Seq<char>> = if c.port is Some {
        seq!["-p"@, decimal(c.port->0 as nat)]
    } else {
        Seq::empty()
    };
    let ip: Seq<Seq<char>> = if c.identity_file is Some {
        seq!["-i"@, c.identity_file->0]
    } else {
        Seq::empty()
    };
    let op = option_args(c.options);
    lemma_layout_of_parts(d, pp, ip, op, c.options);
    assert(ssh_args_spec(c) == d + pp + ip + op);
    lemma_layout_option(d, pp, ip, op, c.options, k);
}

/// Where each argument stands: the destination first (`user@host` when a
/// non-blank user is given, else the host); then `-p` and the port in decimal,
/// exactly when a port is given; then `-i` immediately followed by the identity
/// file, whenever one is given (with or without a port); then `-o` and each
/// option, in order (see `lemma_ssh_option_pair`); nothing else.
pub proof fn lemma_ssh_args_layout(c: ConnectionView)
    ensures
        ssh_args_spec(c).len() == 1 + (if c.port is Some { 2int } else { 0int }) + (
        if c.identity_file is Some {
            2int
        } else {
            0int
        }) + 2 * c.options.len(),
        ssh_args_spec(c)[0] == (if c.user is Some && !is_blank(c.user->0) {
            c.user->0 + "@"@ + c.host
        } else {
            c.host
        }),
        c.port is Some ==> ssh_args_spec(c)[1] == "-p"@ && ssh_args_spec(c)[2] == decimal(
            c.port->0 as nat,
        ),
        c.port is None && ssh_args_spec(c).len() > 1 ==> ssh_args_spec(c)[1] != "-p"@,
        c.identity_file is Some ==> ssh_args_spec(c)[if c.port is Some { 3int } else { 1int }]
            == "-i"@ && ssh_args_spec(c)[if c.port is Some { 4int } else { 2int }]
            == c.identity_file->0,
{
    let d = seq![destination_spec(c)];
    let pp: Seq<Seq<char>> = if c.port is Some {
        seq!["-p"@, decimal(c.port->0 as nat)]
    } else {
        Seq::empty()
    };
    let ip: Seq<Seq<char>> = if c.identity_file is Some {
        seq!["-i"@, c.identity_file->0]
    } else {
        Seq::empty()
    };
    let op = option_args(c.options);
    lemma_layout_of_parts(d, pp, ip, op, c.options);
    assert(ssh_args_spec(c) == d + pp + ip + op);
    if c.port is None && d.len() + pp.len() + ip.len() + op.len() > 1 {
        lemma_flags_differ();
        if c.identity_file is Some {
            assert((d + pp + ip + op)[1] == ip[0]);
        } else {
            lemma_option_args_at(c.options, 0);
            assert((d + pp + ip + op)[1] == op[0]);
        }
    }
}

proof fn lemma_flags_differ()
    ensures
        "-i"@ != "-p"@,
        "-o"@ != "-p"@,
{
    reveal_strlit("-p");
    reveal_strlit("-i");
    reveal_strlit("-o");
    assert("-i"@[1] != "-p"@[1]);
    assert("-o"@[1] != "-p"@[1]);
}

proof fn lemma_layout_of_parts(
    d: Seq<Seq<char>>,
    pp: Seq<Seq<char>>,
    ip: Seq<Seq<char>>,
    op: Seq<Seq<char>>,
    options: Seq<Seq<char>>,
)
    requires
        d.len() == 1,
        pp.len() == 0 || pp.len() == 2,
        ip.len() == 0 || ip.len() == 2,
        op == option_args(options),
    ensures
        (d + pp + ip + op).len() == 1 + pp.len() + ip.len() + 2 * options.len(),
        (d + pp + ip + op)[0] == d[0],
        pp.len() == 2 ==> (d + pp + ip + op)[1] == pp[0] && (d + pp + ip + op)[2] == pp[1],
        ip.len() == 2 ==> (d + pp + ip + op)[1 + pp.len() as int] == ip[0] && (d + pp + ip
            + op)[2 + pp.len() as int] == ip[1],
{
    let head = d + pp + ip;
    let a = head + op;
    let o: int = 1 + pp.len() as int;
    let p: int = o + ip.len() as int;
    assert(head.len() == p);
    lemma_option_args_len(options);
    assert(a[0] == head[0]);
    assert(head[0] == (d + pp)[0]);
    if pp.len() == 2 {
        assert(a[1] == head[1] && head[1] == (d + pp)[1]);
        assert(a[2] == head[2] && head[2] == (d + pp)[2]);
    }
    if ip.len() == 2 {
        assert(a[o] == head[o]);
        assert(a[o + 1] == head[o + 1]);
    }
}

proof fn lemma_layout_option(
    d: Seq<Seq<char>>,
    pp: Seq<Seq<char>>,
    ip: Seq<Seq<char>>,
    op: Seq<Seq<char>>,
    options: Seq<Seq<char>>,
    k: int,
)
    requires
        d.len() == 1,
        op == option_args(options),
        0 <= k < options.len(),
    ensures
        (d + pp + ip + op)[1 + pp.len() as int + ip.len() as int + 2 * k] == "-o"@,
        (d + pp + ip + op)[1 + pp.len() as int + ip.len() as int + 2 * k + 1] == options[k],
{
    let head = d + pp + ip;
    let p: int = 1 + pp.len() as int + ip.len() as int;
    assert(head.len() == p);
    lemma_option_args_len(options);
    lemma_option_args_at(options, k);
    assert((head + op)[p + 2 * k] == op[2 * k]);
    assert((head + op)[p + 2 * k + 1] == op[2 * k + 1]);
}

proof fn lemma_option_args_len(options: Seq<Seq<char>>)
    ensures
        option_args(options).len() == 2 * options.len(),
{
    reveal(option_args);
}

proof fn lemma_option_args_at(options: Seq<Seq<char>>, k: int)
    requires
        0 <= k < options.len(),
    ensures
        option_args(options).len() == 2 * options.len(),
        option_args(options)[2 * k] == "-o"@,
        option_args(options)[2 * k + 1] == options[k],
{
    reveal(option_args);
    assert((2 * k) % 2 == 0);
    assert((2 * k + 1) % 2 == 1);
    assert((2 * k + 1) / 2 == k);
}

} // verus!
