//! The server's identity: its key file, and what the commands on it print.

use vstd::prelude::*;
use vstd::string::*;

use base64::Engine;
use base64::engine::general_purpose::STANDARD;

use crate::endpoint::EndpointId;
use crate::text::{hex, pair_views, push_hex, same_text};

verus! {

/// The standard base64 text of some bytes, with padding.
pub uninterp spec fn base64_of(bytes: Seq<u8>) -> Seq<char>;

/// The public key that belongs to a secret key, both by their bytes.
pub uninterp spec fn public_of(secret: Seq<u8>) -> Seq<u8>;

/// The JSON object with the given text fields, on one line.
pub uninterp spec fn json_object_of(fields: Seq<(Seq<char>, Seq<char>)>) -> Seq<char>;

/// `Engine::encode` of base64's standard engine gives the bytes' base64 text, which depends on
/// the bytes alone.
#[verifier::external_body]
fn base64_text(bytes: &[u8]) -> (r: String)
    ensures
        r@ == base64_of(bytes@),
{
    STANDARD.encode(bytes)
}

/// `SecretKey::from_bytes` and `SecretKey::public` of iroh give the public key of a secret key,
/// which depends on its bytes alone.
#[verifier::external_body]
fn public_key_of(secret: &[u8; 32]) -> (r: EndpointId)
    ensures
        r@ == public_of(secret@),
{
    EndpointId { bytes: *iroh::SecretKey::from_bytes(secret).public().as_bytes() }
}

/// `SecretKey::generate` of iroh draws a secret key at random: nothing is said of its bytes.
#[verifier::external_body]
fn random_secret() -> (r: [u8; 32]) {
    iroh::SecretKey::generate().to_bytes()
}

/// `Value::to_string` of serde_json prints an object of text fields, by the fields alone.
#[verifier::external_body]
fn json_object(fields: Vec<(String, String)>) -> (r: String)
    ensures
        r@ == json_object_of(pair_views(fields@)),
{
    let object: serde_json::Map<String, serde_json::Value> = fields
        .into_iter()
        .map(|f| (f.0, serde_json::Value::String(f.1)))
        .collect();
    serde_json::Value::Object(object).to_string()
}

/// How an endpoint id is written: its bytes in lower-case hexadecimal.
pub open spec fn hex_bytes(bytes: Seq<u8>) -> Seq<char>
    decreases bytes.len(),
{
    if bytes.len() == 0 {
        Seq::empty()
    } else {
        hex_bytes(bytes.drop_last()) + hex(bytes.last() as nat, 2)
    }
}

impl EndpointId {
    /// How the id is written.
    pub fn to_text(&self) -> (r: String)
        ensures
            r@ == hex_bytes(self@),
    {
        let mut out = String::new();
        let mut i: usize = 0;
        assert(self@.take(0) == Seq::<u8>::empty());
        assert(out@ == hex_bytes(self@.take(0)));
        while i < 32
            invariant
                i <= 32,
                out@ == hex_bytes(self@.take(i as int)),
            decreases 32 - i,
        {
            let ghost before = out@;
            push_hex(&mut out, self.bytes[i] as u64, 2);
            assert(self@.take(i + 1).drop_last() == self@.take(i as int));
            assert(self@.take(i + 1).last() == self@[i as int]);
            i += 1;
        }
        assert(self@.take(32) == self@);
        out
    }
}

/// The id of the endpoint with a secret key.
pub fn secret_to_endpoint_id(secret: &[u8; 32]) -> (r: EndpointId)
    ensures
        r@ == public_of(secret@),
{
    public_key_of(secret)
}

/// The contents of a key file: when it was made and the endpoint id as comments, then the secret.
pub open spec fn key_file(created: Seq<char>, id: Seq<char>, secret: Seq<char>) -> Seq<char> {
    "# created: "@ + created + "\n# public key: "@ + id + "\n"@ + secret + "\n"@
}

fn key_file_text(created: &str, id: &str, secret: &str) -> (r: String)
    ensures
        r@ == key_file(created@, id@, secret@),
{
    let mut out = String::from_str("# created: ");
    out.append(created);
    out.append("\n# public key: ");
    out.append(id);
    out.append("\n");
    out.append(secret);
    out.append("\n");
    out
}

/// The fields of the JSON object about a new key; the third is the secret itself, or the file
/// that holds it.
pub open spec fn key_fields(
    created: Seq<char>,
    id: Seq<char>,
    third: Seq<char>,
    value: Seq<char>,
) -> Seq<(Seq<char>, Seq<char>)> {
    seq![("created"@, created), ("endpoint_id"@, id), (third, value)]
}

fn key_object(created: &str, id: &str, third: &str, value: &str) -> (r: String)
    ensures
        r@ == json_object_of(key_fields(created@, id@, third@, value@)),
{
    let mut fields: Vec<(String, String)> = Vec::new();
    fields.push((String::from_str("created"), String::from_str(created)));
    fields.push((String::from_str("endpoint_id"), String::from_str(id)));
    fields.push((String::from_str(third), String::from_str(value)));
    assert(pair_views(fields@) == key_fields(created@, id@, third@, value@));
    json_object(fields)
}

/// What a new key leads to.
#[derive(Debug, PartialEq, Eq)]
pub enum KeyOutput {
    /// Print exactly this text, and write no file.
    Print(String),
    /// Write the contents to the file, then print the line.
    Save { contents: String, public_info: String },
}

/// What a [`KeyOutput`] holds.
#[verifier::ext_equal]
pub enum KeyOutputView {
    Print(Seq<char>),
    Save { contents: Seq<char>, public_info: Seq<char> },
}

impl View for KeyOutput {
    type V = KeyOutputView;

    open spec fn view(&self) -> KeyOutputView {
        match *self {
            KeyOutput::Print(text) => KeyOutputView::Print(text@),
            KeyOutput::Save { contents, public_info } => KeyOutputView::Save {
                contents: contents@,
                public_info: public_info@,
            },
        }
    }
}

/// What a new key leads to, given its id and its secret as texts. The output `-` stands for
/// standard output.
pub open spec fn key_output(
    created: Seq<char>,
    id: Seq<char>,
    secret: Seq<char>,
    output: Seq<char>,
    json: bool,
) -> KeyOutputView {
    if output == "-"@ {
        KeyOutputView::Print(
            if json {
                json_object_of(key_fields(created, id, "secret"@, secret)) + "\n"@
            } else {
                key_file(created, id, secret)
            },
        )
    } else {
        KeyOutputView::Save {
            contents: key_file(created, id, secret),
            public_info: if json {
                json_object_of(key_fields(created, id, "secret_file"@, output))
            } else {
                "EndpointId: "@ + id
            },
        }
    }
}

/// Says what to print or to write for a new key, given its id and its secret as texts.
pub fn iroh_key_output(created: &str, id: &str, secret: &str, output: &str, json: bool) -> (r:
    KeyOutput)
    ensures
        r@ == key_output(created@, id@, secret@, output@, json),
{
    let contents = key_file_text(created, id, secret);
    if same_text(output, "-") {
        if json {
            let mut text = key_object(created, id, "secret", secret);
            text.append("\n");
            KeyOutput::Print(text)
        } else {
            KeyOutput::Print(contents)
        }
    } else {
        let public_info = if json {
            key_object(created, id, "secret_file", output)
        } else {
            let mut line = String::from_str("EndpointId: ");
            line.append(id);
            line
        };
        KeyOutput::Save { contents, public_info }
    }
}

/// What a new key with the given secret leads to.
pub open spec fn key_output_of(
    secret: Seq<u8>,
    created: Seq<char>,
    output: Seq<char>,
    json: bool,
) -> KeyOutputView {
    key_output(created, hex_bytes(public_of(secret)), base64_of(secret), output, json)
}

/// Says what to print or to write for a new key with the given secret.
pub fn iroh_key_of(secret: &[u8; 32], created: &str, output: &str, json: bool) -> (r: KeyOutput)
    ensures
        r@ == key_output_of(secret@, created@, output@, json),
{
    let id = secret_to_endpoint_id(secret).to_text();
    let text = base64_text(secret.as_slice());
    iroh_key_output(created, id.as_str(), text.as_str(), output, json)
}

/// Draws a new key at random, and says what to print or to write for it.
pub fn generate_iroh_key(created: &str, output: &str, json: bool) -> (r: KeyOutput)
    ensures
        exists|secret: Seq<u8>|
            secret.len() == 32 && r@ == #[trigger] key_output_of(secret, created@, output@, json),
{
    let secret = random_secret();
    iroh_key_of(&secret, created, output, json)
}

/// How a secret is written out.
#[derive(Debug, Clone, Copy, PartialEq, Eq, Structural)]
pub enum WriteMode {
    /// Print the secret to standard output, and the public line to standard error.
    Stdout,
    /// Open the file for writing, and keep it private whatever its permissions were.
    Overwrite,
    /// Create the file, private, and fail if it has come into being in the meantime.
    CreateNew,
}

/// The message that a file is not overwritten.
pub open spec fn file_exists(output: Seq<char>) -> Seq<char> {
    "File already exists: "@ + output + ". Use --force to overwrite."@
}

/// How a secret is written to `output`, or why it is not.
pub open spec fn write_mode(output: Seq<char>, exists: bool, force: bool) -> Result<
    WriteMode,
    Seq<char>,
> {
    if output == "-"@ {
        Ok(WriteMode::Stdout)
    } else if exists && !force {
        Err(file_exists(output))
    } else if force {
        Ok(WriteMode::Overwrite)
    } else {
        Ok(WriteMode::CreateNew)
    }
}

/// Says how a secret is written to `output`, where a file may exist, or why it is not.
pub fn write_secret_to_output(output: &str, exists: bool, force: bool) -> (r: Result<
    WriteMode,
    String,
>)
    ensures
        match r {
            Ok(mode) => Ok(mode),
            Err(e) => Err(e@),
        } == write_mode(output@, exists, force),
{
    if same_text(output, "-") {
        return Ok(WriteMode::Stdout);
    }
    if exists && !force {
        let mut message = String::from_str("File already exists: ");
        message.append(output);
        message.append(". Use --force to overwrite.");
        return Err(message);
    }
    if force {
        Ok(WriteMode::Overwrite)
    } else {
        Ok(WriteMode::CreateNew)
    }
}

/// An existing file is only ever overwritten by force.
pub proof fn law_only_force_overwrites(output: Seq<char>, force: bool)
    requires
        output != "-"@,
    ensures
        write_mode(output, true, force) is Ok <==> force,
        write_mode(output, false, force) is Ok,
        write_mode(output, true, force) != Ok::<WriteMode, Seq<char>>(WriteMode::CreateNew),
{
}

/// The message that no key file is configured.
pub open spec fn no_secret_key() -> Seq<char> {
    "No secret key configured.\nGenerate one with: flextunnel generate-iroh-key -o <FILE>\nThen pass --secret-file <FILE> or set secret_file in the config."@
}

/// The file that holds the server's secret key, which must be configured: there is no other
/// source for a lasting identity.
pub fn resolve_secret_key(secret_file: Option<String>) -> (r: Result<String, String>)
    ensures
        match secret_file {
            Some(path) => r == Ok::<String, String>(path),
            None => r matches Err(e) && e@ == no_secret_key(),
        },
{
    match secret_file {
        Some(path) => Ok(path),
        None => Err(
            String::from_str(
                "No secret key configured.\nGenerate one with: flextunnel generate-iroh-key -o <FILE>\nThen pass --secret-file <FILE> or set secret_file in the config.",
            ),
        ),
    }
}

/// The line that shows an endpoint id.
pub open spec fn id_line(id: Seq<char>, json: bool) -> Seq<char> {
    if json {
        json_object_of(seq![("endpoint_id"@, id)])
    } else {
        id
    }
}

/// The line that shows the endpoint id of a secret key.
pub fn show_iroh_id(secret: &[u8; 32], json: bool) -> (r: String)
    ensures
        r@ == id_line(hex_bytes(public_of(secret@)), json),
{
    let id = secret_to_endpoint_id(secret).to_text();
    if json {
        let mut fields: Vec<(String, String)> = Vec::new();
        fields.push((String::from_str("endpoint_id"), id.clone()));
        assert(pair_views(fields@) == seq![("endpoint_id"@, id@)]);
        json_object(fields)
    } else {
        id
    }
}

} // verus!
