//! Arguments of the command-line tool.
use vstd::prelude::*;
use crate::arkhe_core::hash::hex_digit;
use crate::assoc::strs_equal;
use crate::identity::{ed25519_signature, SignatureGuard};

verus! {

/// Arguments of `migrate`.
pub struct MigrateArgs {
    pub command: MigrateCommand,
}

/// The database `migrate` applies the migrations to.
pub enum MigrateCommand {
    Sqlite { database: String },
    Postgres { url: String },
}

/// Arguments of `sign`: the payload file, the algorithm and the output
/// format.
pub struct SignArgs {
    payload: String,
    algorithm: String,
    output_format: String,
}

impl SignArgs {
    pub fn new(payload: String, algorithm: String, output_format: String) -> (r: Self)
        ensures
            r.payload() == payload,
            r.algorithm() == algorithm,
            r.output_format() == output_format,
    {
        SignArgs { payload, algorithm, output_format }
    }

    pub closed spec fn payload(&self) -> String {
        self.payload
    }

    pub closed spec fn algorithm(&self) -> String {
        self.algorithm
    }

    pub closed spec fn output_format(&self) -> String {
        self.output_format
    }
}

/// Bytes in hexadecimal: two lowercase digits per byte, the high half
/// first.
pub open spec fn hex_text(bytes: Seq<u8>) -> Seq<char> {
    Seq::new(
        2 * bytes.len(),
        |i: int|
            if i % 2 == 0 {
                hex_digit(bytes[i / 2] / 16)
            } else {
                hex_digit(bytes[i / 2] % 16)
            },
    )
}

/// Encodes bytes in lowercase hexadecimal (`hex::encode`).
#[verifier::external_body]
fn hex_encode(bytes: &[u8]) -> (r: String)
    ensures
        r@ == hex_text(bytes@),
{
    hex::encode(bytes)
}

/// What `sign` answers for an algorithm other than Ed25519.
pub open spec fn unsupported_algorithm_text() -> Seq<char> {
    "Algoritmo não suportado (apenas ed25519 e mldsa (se habilitado) sao validos)"@
}

/// What `sign` prints for the base64 format, which it does not implement.
pub open spec fn base64_stub_text() -> Seq<char> {
    "Base64 output not implemented in prototype. Use hex."@
}

/// What `sign` answers for an output format it does not know.
pub open spec fn invalid_format_text() -> Seq<char> {
    "Formato de saída inválido"@
}

/// What the `sign` command prints for `payload`: with Ed25519 (the only
/// algorithm), the guard's signature in hexadecimal, or the base64 notice;
/// an error for another algorithm or an unknown output format.
pub fn sign_output(guard: &SignatureGuard, payload: &[u8], algorithm: &str, output_format: &str) -> (r:
    Result<String, String>)
    requires
        guard.wf(),
    ensures
        algorithm@ != "ed25519"@ ==> (r matches Err(e) && e@ == unsupported_algorithm_text()),
        algorithm@ == "ed25519"@ && output_format@ == "hex"@ ==> (r matches Ok(t) && t@ == hex_text(
            ed25519_signature(guard.secret_key(), payload@),
        )),
        algorithm@ == "ed25519"@ && output_format@ == "base64"@ ==> (r matches Ok(t) && t@
            == base64_stub_text()),
        algorithm@ == "ed25519"@ && output_format@ != "hex"@ && output_format@ != "base64"@ ==> (
        r matches Err(e) && e@ == invalid_format_text()),
{
    if !strs_equal(algorithm, "ed25519") {
        return Err("Algoritmo não suportado (apenas ed25519 e mldsa (se habilitado) sao validos)".to_owned());
    }
    let sig = guard.sign(payload);
    proof {
        reveal_strlit("hex");
        reveal_strlit("base64");
        assert("hex"@.len() != "base64"@.len());
    }
    if strs_equal(output_format, "hex") {
        Ok(hex_encode(sig.as_slice()))
    } else if strs_equal(output_format, "base64") {
        Ok("Base64 output not implemented in prototype. Use hex.".to_owned())
    } else {
        Err("Formato de saída inválido".to_owned())
    }
}

} // verus!

