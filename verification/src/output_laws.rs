//! What writing a key out and asking for a configuration promise.

use vstd::prelude::*;
use vstd::string::*;

use crate::edit_laws::is_tidy;
use crate::prompt::{
    answered, id_answer, port_answer, question_from, question_text, ClientConfigView, FillStepView,
    Question,
};
use crate::secret::{
    base64_of, hex_bytes, id_line, json_object_of, key_output, key_output_of, public_of,
    write_mode, KeyOutputView, WriteMode,
};
use crate::text::{hex, trimmed, u16_of_text};
use crate::text_laws::{is_blank, law_hex_grows_by_digits, law_trimming_takes_white_space_away};

verus! {

/// The file of a key: two lines of comment with the time and the public key, then the secret on a
/// line of its own.
pub open spec fn lines_of_key(
    created: Seq<char>,
    id: Seq<char>,
    secret: Seq<char>,
) -> Seq<char> {
    "# created: "@ + created + seq!['\n'] + "# public key: "@ + id + seq!['\n'] + secret + seq![
        '\n',
    ]
}

/// A key goes to standard output for `-`, and otherwise to a file. As text both get the same
/// lines. As JSON, standard output gets one line with the time, the id and the secret, and the
/// file its lines as before; what is then shown names the file in place of the secret. Without
/// JSON what is shown is the id alone.
pub proof fn law_key_goes_where_it_is_sent(
    created: Seq<char>,
    id: Seq<char>,
    secret: Seq<char>,
    output: Seq<char>,
    json: bool,
)
    ensures
        ({
            let r = key_output(created, id, secret, output, json);
            let stdout = output == seq!['-'];
            &&& r is Print <==> stdout
            &&& stdout && !json ==> r == KeyOutputView::Print(lines_of_key(created, id, secret))
            &&& stdout && json ==> r == KeyOutputView::Print(
                json_object_of(
                    seq![("created"@, created), ("endpoint_id"@, id), ("secret"@, secret)],
                ).push('\n'),
            )
            &&& !stdout ==> r is Save && r->contents == lines_of_key(created, id, secret)
            &&& !stdout && !json ==> r->public_info == "EndpointId: "@ + id
            &&& !stdout && json ==> r->public_info == json_object_of(
                seq![("created"@, created), ("endpoint_id"@, id), ("secret_file"@, output)],
            )
        }),
{
    reveal_strlit("-");
    reveal_strlit("\n");
    reveal_strlit("\n# public key: ");
    reveal_strlit("# public key: ");
    assert("-"@ == seq!['-']);
    assert("\n"@ == seq!['\n']);
    assert("\n# public key: "@ == seq!['\n'] + "# public key: "@);
    let a = "# created: "@ + created;
    assert(a + "\n# public key: "@ + id + "\n"@ + secret + "\n"@ == lines_of_key(
        created,
        id,
        secret,
    ));
    let o = json_object_of(
        seq![("created"@, created), ("endpoint_id"@, id), ("secret"@, secret)],
    );
    assert(o + "\n"@ == o.push('\n'));
}

/// What is shown of a key that goes to a file does not depend on its secret.
pub proof fn law_shown_line_holds_no_secret(
    created: Seq<char>,
    id: Seq<char>,
    a: Seq<char>,
    b: Seq<char>,
    output: Seq<char>,
    json: bool,
)
    requires
        output != seq!['-'],
    ensures
        key_output(created, id, a, output, json)->public_info == key_output(
            created,
            id,
            b,
            output,
            json,
        )->public_info,
{
    law_key_goes_where_it_is_sent(created, id, a, output, json);
    law_key_goes_where_it_is_sent(created, id, b, output, json);
}

/// Standard output is always written. A file that exists is written over only by force, and
/// without force a file is created.
pub proof fn law_write_mode_by_force(output: Seq<char>, exists: bool, force: bool)
    ensures
        ({
            let r = write_mode(output, exists, force);
            let stdout = output == seq!['-'];
            &&& stdout ==> r == Ok::<WriteMode, Seq<char>>(WriteMode::Stdout)
            &&& !stdout && force ==> r == Ok::<WriteMode, Seq<char>>(WriteMode::Overwrite)
            &&& !stdout && !force && !exists ==> r == Ok::<WriteMode, Seq<char>>(
                WriteMode::CreateNew,
            )
            &&& !stdout && !force && exists ==> r == Err::<WriteMode, Seq<char>>(
                "File already exists: "@ + output + ". Use --force to overwrite."@,
            )
        }),
{
    reveal_strlit("-");
    assert("-"@ == seq!['-']);
}

/// An id is shown as it is, or as a JSON object under `endpoint_id`.
pub proof fn law_id_line(id: Seq<char>)
    ensures
        id_line(id, false) == id,
        id_line(id, true) == json_object_of(seq![("endpoint_id"@, id)]),
{
}

/// Bytes are shown as two hexadecimal digits each, the high one first, in their order.
pub proof fn law_bytes_in_hex(bytes: Seq<u8>, i: int)
    requires
        0 <= i < bytes.len(),
    ensures
        hex_bytes(bytes).len() == 2 * bytes.len(),
        hex_bytes(bytes)[2 * i] == "0123456789abcdef"@[bytes[i] as int / 16],
        hex_bytes(bytes)[2 * i + 1] == "0123456789abcdef"@[bytes[i] as int % 16],
    decreases bytes.len(),
{
    let front = bytes.drop_last();
    let b = bytes.last() as nat;
    lemma_hex_bytes_len(front);
    law_hex_grows_by_digits(b / 16, b % 16, 1);
    law_hex_grows_by_digits(0, b / 16, 0);
    assert(hex(0, 0) == Seq::<char>::empty());
    assert(hex(b / 16, 1) == seq!["0123456789abcdef"@[(b / 16) as int]]);
    if i < front.len() {
        law_bytes_in_hex(front, i);
    }
}

proof fn lemma_hex_bytes_len(bytes: Seq<u8>)
    ensures
        hex_bytes(bytes).len() == 2 * bytes.len(),
    decreases bytes.len(),
{
    if bytes.len() > 0 {
        lemma_hex_bytes_len(bytes.drop_last());
        law_hex_grows_by_digits(bytes.last() as nat, 0, 2);
    }
}

/// A blank answer switches a proxy off, a number with white space around it is its port, and
/// anything else is asked for again.
pub proof fn law_port_answer(before: Seq<char>, t: Seq<char>, after: Seq<char>)
    requires
        is_blank(before),
        is_blank(after),
        t.len() > 0 ==> is_tidy(t),
    ensures
        ({
            let r = port_answer(before + t + after);
            &&& t.len() == 0 ==> r == Ok::<Option<u16>, Seq<char>>(None)
            &&& t.len() > 0 && u16_of_text(t) is Some ==> r == Ok::<Option<u16>, Seq<char>>(
                Some(u16_of_text(t)->0),
            )
            &&& t.len() > 0 && u16_of_text(t) is None ==> r == Err::<Option<u16>, Seq<char>>(
                "Enter a port number (1-65535) or leave blank."@,
            )
        }),
{
    law_trimming_takes_white_space_away(before, t, after);
}

/// An answer for the server that is blank, or is no id, is asked for again; an id is taken.
pub proof fn law_id_answer(value: Seq<char>, parsed: Result<Seq<u8>, Seq<char>>)
    ensures
        value.len() == 0 ==> id_answer(value, parsed) == Err::<Seq<u8>, Seq<char>>(
            "A value is required."@,
        ),
        value.len() > 0 && parsed is Ok ==> id_answer(value, parsed) == parsed,
        value.len() > 0 && parsed is Err ==> id_answer(value, parsed) == Err::<
            Seq<u8>,
            Seq<char>,
        >("Invalid EndpointId: "@ + parsed->Err_0),
{
}

/// What is missing is asked for in order: the server, then the SOCKS5 port, then the HTTP port.
/// What was given is never asked for.
pub proof fn law_questions_in_order(cli: ClientConfigView)
    ensures
        cli.server_node_id is None ==> question_from(cli, Question::ServerId) == Some(
            Question::ServerId,
        ),
        cli.server_node_id is Some && cli.socks_port is None ==> question_from(
            cli,
            Question::ServerId,
        ) == Some(Question::SocksPort),
        cli.server_node_id is Some && cli.socks_port is Some && cli.http_port is None
            ==> question_from(cli, Question::ServerId) == Some(Question::HttpPort),
        cli.server_node_id is Some && cli.socks_port is Some && cli.http_port is Some
            ==> question_from(cli, Question::ServerId) is None,
{
    reveal_with_fuel(question_from, 4);
}

/// An answer that can be used goes to what was asked for, and to nothing else; what is asked next
/// is the next thing that is missing. One that cannot be used changes nothing and is asked for
/// again, with the reason.
pub proof fn law_answers_go_where_they_belong(
    cli: ClientConfigView,
    line: Seq<char>,
    id: Result<Seq<u8>, Seq<char>>,
)
    ensures
        ({
            let (a, next) = answered(cli, Question::ServerId, line, id);
            let usable = trimmed(line).len() > 0 && id is Ok;
            &&& usable ==> {
                &&& a.server_node_id == Some(hex_bytes(id->Ok_0))
                &&& a.socks_port == cli.socks_port && a.http_port == cli.http_port
                &&& next == (if cli.socks_port is None {
                    FillStepView::Ask(Question::SocksPort)
                } else if cli.http_port is None {
                    FillStepView::Ask(Question::HttpPort)
                } else {
                    FillStepView::Done
                })
            }
            &&& !usable ==> a == cli && next is Again
        }),
        ({
            let (a, next) = answered(cli, Question::SocksPort, line, id);
            let r = port_answer(line);
            &&& r is Ok ==> {
                &&& a.socks_port == r->Ok_0
                &&& a.server_node_id == cli.server_node_id && a.http_port == cli.http_port
                &&& next == (if cli.http_port is None {
                    FillStepView::Ask(Question::HttpPort)
                } else {
                    FillStepView::Done
                })
            }
            &&& r is Err ==> a == cli && next == FillStepView::Again(r->Err_0)
        }),
        ({
            let (a, next) = answered(cli, Question::HttpPort, line, id);
            let r = port_answer(line);
            &&& r is Ok ==> {
                &&& a.http_port == r->Ok_0
                &&& a.server_node_id == cli.server_node_id && a.socks_port == cli.socks_port
                &&& next == FillStepView::Done
            }
            &&& r is Err ==> a == cli && next == FillStepView::Again(r->Err_0)
        }),
{
    reveal_with_fuel(question_from, 4);
}

/// A secret key is written out in base64, beside its public half in hexadecimal digits.
pub proof fn law_key_is_written_with_its_public_half(
    secret: Seq<u8>,
    created: Seq<char>,
    output: Seq<char>,
    json: bool,
)
    ensures
        ({
            let r = key_output_of(secret, created, output, json);
            let (id, text) = (hex_bytes(public_of(secret)), base64_of(secret));
            &&& output != seq!['-'] ==> r is Save && r->contents == lines_of_key(created, id, text)
            &&& output == seq!['-'] && !json ==> r == KeyOutputView::Print(
                lines_of_key(created, id, text),
            )
            &&& output == seq!['-'] && json ==> r == KeyOutputView::Print(
                json_object_of(
                    seq![("created"@, created), ("endpoint_id"@, id), ("secret"@, text)],
                ).push('\n'),
            )
        }),
{
    law_key_goes_where_it_is_sent(
        created,
        hex_bytes(public_of(secret)),
        base64_of(secret),
        output,
        json,
    );
}

/// Each question says what it asks for, and that a port may be left out.
pub proof fn law_questions_say_what_they_ask(q: Question)
    ensures
        q == Question::ServerId ==> question_text(q)
            == "Server EndpointId (shown by `flextunnel server start --quick`)"@,
        q == Question::SocksPort ==> question_text(q) == "SOCKS5 port (blank = disabled)"@,
        q == Question::HttpPort ==> question_text(q) == "HTTP proxy port (blank = disabled)"@,
{
}

} // verus!
