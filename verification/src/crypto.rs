//! The batch encryption pipeline's logic: file selection, passphrase
//! confirmation, name derivation, and the authenticated encrypt/decrypt
//! primitive.
//!
//! The container format is opaque: sealing and opening are done by the
//! `age` crate over in-memory buffers, and everything around the two
//! calls — which files take part, under which names, and when the batch
//! may start — is verified.

use std::io::Read;
use std::io::Write;

use vstd::prelude::*;

use crate::config::Entry;
use crate::paths::{enc_suffix, ends_with_enc, spec_ends_with};

verus! {

/// Why a crypto operation failed.
#[derive(Debug, Clone, PartialEq)]
pub enum CryptoError {
    /// The file name does not carry the reserved suffix, or stripping
    /// it leaves nothing.
    InvalidName(String),
    /// The encryption primitive failed.
    EncryptFailed,
    /// The container is not valid, or the passphrase is wrong.
    DecryptFailed,
    /// The confirmation passphrase differs from the first one.
    PassphraseMismatch,
}

/// The content that the container `c` protects under passphrase
/// `pass`: the plaintext, or nothing when the container is malformed,
/// demands a key-derivation work factor above the fixed bound this
/// library accepts, or is sealed under a different passphrase.  With
/// the bound fixed, this is a function of the two arguments alone.
pub uninterp spec fn decrypt_of(c: Seq<u8>, pass: Seq<char>) -> Option<Seq<u8>>;

/// Relies on `age::Encryptor::with_user_passphrase` and its stream
/// writer: the produced container protects exactly the written bytes
/// under the given passphrase, with a key-derivation work factor the
/// recipient code keeps below 64 — within the bound `age_decrypt`
/// accepts.  Writing into an in-memory buffer cannot fail, and the
/// recipient wrapping has no failing path, so the call succeeds.
#[verifier::external_body]
fn age_encrypt(plain: &Vec<u8>, pass: &String) -> (r: Result<Vec<u8>, CryptoError>)
    ensures
        r is Ok,
        r is Ok ==> decrypt_of(r->Ok_0@, pass@) == Some(plain@),
{
    let enc = age::Encryptor::with_user_passphrase(age::secrecy::Secret::new(pass.clone()));
    let mut out: Vec<u8> = Vec::new();
    let mut w = enc.wrap_output(&mut out).map_err(|_| CryptoError::EncryptFailed)?;
    w.write_all(plain.as_slice()).map_err(|_| CryptoError::EncryptFailed)?;
    w.finish().map_err(|_| CryptoError::EncryptFailed)?;
    Ok(out)
}

/// Relies on `age::Decryptor`: the call accepts key-derivation work
/// factors up to 63, the largest the scrypt derivation admits, so the
/// outcome never depends on a machine-speed probe — it is a function
/// of the container and the passphrase alone: the protected plaintext,
/// or failure on a wrong passphrase or a damaged container.
#[verifier::external_body]
fn age_decrypt(container: &Vec<u8>, pass: &String) -> (r: Result<Vec<u8>, CryptoError>)
    ensures
        r is Ok <==> decrypt_of(container@, pass@) is Some,
        r is Ok ==> Some(r->Ok_0@) == decrypt_of(container@, pass@),
{
    let d = match age::Decryptor::new(container.as_slice()) {
        Ok(age::Decryptor::Passphrase(d)) => d,
        _ => return Err(CryptoError::DecryptFailed),
    };
    let mut reader = d.decrypt(&age::secrecy::Secret::new(pass.clone()), Some(63)).map_err(
        |_| CryptoError::DecryptFailed,
    )?;
    let mut out: Vec<u8> = Vec::new();
    reader.read_to_end(&mut out).map_err(|_| CryptoError::DecryptFailed)?;
    Ok(out)
}

/// Seals `plain` under `pass` into an authenticated container with a
/// fresh random salt and nonce per call.  Sealing into memory always
/// succeeds, and the container opens, under the same passphrase, to
/// exactly `plain`.
pub fn encrypt_content(plain: &Vec<u8>, pass: &String) -> (r: Result<Vec<u8>, CryptoError>)
    ensures
        r is Ok,
        r is Ok ==> decrypt_of(r->Ok_0@, pass@) == Some(plain@),
{
    age_encrypt(plain, pass)
}

/// Opens the container `c` with `pass`: succeeds exactly when the
/// container opens under this passphrase, and then yields exactly the
/// protected plaintext.  On failure no bytes are produced at all, so a
/// caller that writes only on success can never leave a partial file.
pub fn decrypt_content(c: &Vec<u8>, pass: &String) -> (r: Result<Vec<u8>, CryptoError>)
    ensures
        r is Ok <==> decrypt_of(c@, pass@) is Some,
        r is Ok ==> Some(r->Ok_0@) == decrypt_of(c@, pass@),
{
    age_decrypt(c, pass)
}

/// Sealing and then opening under the same passphrase restores the
/// original bytes, on every input.
pub fn crypto_round_trip(plain: &Vec<u8>, pass: &String) -> (r: Option<Vec<u8>>)
    ensures
        r is Some,
        r is Some ==> r->0@ == plain@,
{
    match age_encrypt(plain, pass) {
        Ok(c) => match age_decrypt(&c, pass) {
            Ok(p) => Some(p),
            Err(_) => None,
        },
        Err(_) => None,
    }
}

/// The ciphertext sibling's name: the source name with the reserved
/// suffix appended.
pub fn encrypted_name(src: &String) -> (r: String)
    ensures
        r@ == src@ + enc_suffix(),
{
    let mut r = src.clone();
    r.append(".enc");
    proof {
        reveal_strlit(".enc");
        assert(r@ =~= src@ + enc_suffix());
    }
    r
}

/// The plaintext name a ciphertext file restores to: the name with the
/// reserved suffix stripped.  Fails exactly when the suffix is absent
/// or stripping it would leave an empty name.
pub fn decrypted_name(src: &String) -> (r: Result<String, CryptoError>)
    ensures
        r is Ok <==> spec_ends_with(src@, enc_suffix()) && src@.len() > enc_suffix().len(),
        r is Ok ==> r->Ok_0@ == src@.take(src@.len() - enc_suffix().len()),
        r is Err ==> (r->Err_0 matches CryptoError::InvalidName(n) && n@ == src@),
{
    if !ends_with_enc(src) {
        return Err(CryptoError::InvalidName(src.clone()));
    }
    let n = src.as_str().unicode_len();
    if n <= 4 {
        return Err(CryptoError::InvalidName(src.clone()));
    }
    let stem = src.as_str().substring_char(0, n - 4).to_owned();
    proof {
        assert(stem@ =~= src@.take(src@.len() - enc_suffix().len()));
    }
    Ok(stem)
}

/// Compares the passphrase with its confirmation and accepts exactly
/// when they read the same.  When the lengths match, every character is
/// scanned and the verdict accumulated without an early exit, so the
/// comparison's cost does not reveal where a near-miss diverges.
pub fn confirm_passphrase(pass: &String, again: &String) -> (r: Result<(), CryptoError>)
    ensures
        r is Ok <==> pass@ == again@,
        r is Err ==> r->Err_0 == CryptoError::PassphraseMismatch,
{
    let n = pass.as_str().unicode_len();
    let m = again.as_str().unicode_len();
    let mut same = true;
    if n == m {
        let mut i: usize = 0;
        proof {
            assert(pass@.take(0) =~= again@.take(0));
        }
        while i < n
            invariant
                i <= n,
                n == pass@.len(),
                n == again@.len(),
                same <==> pass@.take(i as int) == again@.take(i as int),
            decreases n - i,
        {
            let ghost was_same = same;
            if pass.as_str().get_char(i) != again.as_str().get_char(i) {
                same = false;
            }
            proof {
                if was_same && pass@[i as int] == again@[i as int] {
                    assert(pass@.take(i + 1) =~= again@.take(i + 1));
                } else {
                    assert(pass@.take(i + 1) != again@.take(i + 1)) by {
                        if pass@.take(i + 1) == again@.take(i + 1) {
                            assert(pass@[i as int] == pass@.take(i + 1)[i as int]);
                            assert(pass@.take(i as int) =~= again@.take(i as int));
                        }
                    }
                }
            }
            i = i + 1;
        }
        proof {
            assert(pass@.take(n as int) =~= pass@);
            assert(again@.take(n as int) =~= again@);
        }
    } else {
        same = false;
    }
    if same {
        Ok(())
    } else {
        Err(CryptoError::PassphraseMismatch)
    }
}

/// The files among `files` from index `i` on that the given mode works
/// on: decryption takes those carrying the reserved suffix, encryption
/// those without it.
pub open spec fn spec_selected(files: Seq<String>, decrypt: bool, i: int) -> Seq<String>
    decreases files.len() - i,
{
    if i < 0 || i >= files.len() {
        Seq::empty()
    } else {
        let rest = spec_selected(files, decrypt, i + 1);
        if spec_ends_with(files[i]@, enc_suffix()) == decrypt {
            seq![files[i]] + rest
        } else {
            rest
        }
    }
}

/// The batch's file list from entry `i` on: each entry marked for
/// encryption contributes the selected files of its walked source tree,
/// in entry order then walk order.
pub open spec fn spec_collected(
    entries: Seq<Entry>,
    walks: Seq<Vec<String>>,
    decrypt: bool,
    i: int,
) -> Seq<String>
    decreases entries.len() - i,
{
    if i < 0 || i >= entries.len() {
        Seq::empty()
    } else {
        let rest = spec_collected(entries, walks, decrypt, i + 1);
        if entries[i].encrypt {
            spec_selected(walks[i]@, decrypt, 0) + rest
        } else {
            rest
        }
    }
}

/// Selects from one walked tree the files the given mode works on.
#[verifier::loop_isolation(false)]
fn select_files(files: &Vec<String>, decrypt: bool) -> (r: Vec<String>)
    ensures
        r@ == spec_selected(files@, decrypt, 0),
{
    let mut out: Vec<String> = Vec::new();
    let n = files.len();
    let mut j: usize = 0;
    proof {
        assert(Seq::<String>::empty() + spec_selected(files@, decrypt, 0) =~= spec_selected(
            files@,
            decrypt,
            0,
        ));
    }
    while j < n
        invariant
            j <= n,
            spec_selected(files@, decrypt, 0) == out@ + spec_selected(files@, decrypt, j as int),
        decreases n - j,
    {
        let ghost pre = out@;
        if ends_with_enc(&files[j]) == decrypt {
            out.push(files[j].clone());
            proof {
                assert(out@ =~= pre + seq![files@[j as int]]);
                assert(pre + (seq![files@[j as int]] + spec_selected(files@, decrypt, j + 1)) =~= (
                pre + seq![files@[j as int]]) + spec_selected(files@, decrypt, j + 1));
            }
        }
        j = j + 1;
    }
    proof {
        assert(out@ + Seq::<String>::empty() =~= out@);
    }
    out
}

/// Collects the files a batch operation works on, in entry order then
/// walk order.  `walks` holds, for each entry, the regular files found
/// under its (resolved) source tree in walk order, symlinks not
/// followed; entries not marked for encryption contribute nothing.
#[verifier::loop_isolation(false)]
pub fn collect_files(entries: &Vec<Entry>, walks: &Vec<Vec<String>>, decrypt: bool) -> (r: Vec<
    String,
>)
    requires
        walks@.len() == entries@.len(),
    ensures
        r@ == spec_collected(entries@, walks@, decrypt, 0),
{
    let mut out: Vec<String> = Vec::new();
    let n = entries.len();
    let mut i: usize = 0;
    proof {
        assert(Seq::<String>::empty() + spec_collected(entries@, walks@, decrypt, 0)
            =~= spec_collected(entries@, walks@, decrypt, 0));
    }
    while i < n
        invariant
            i <= n,
            spec_collected(entries@, walks@, decrypt, 0) == out@ + spec_collected(
                entries@,
                walks@,
                decrypt,
                i as int,
            ),
        decreases n - i,
    {
        let ghost pre = out@;
        if entries[i].encrypt {
            let mut sel = select_files(&walks[i], decrypt);
            let ghost sel_ops = sel@;
            out.append(&mut sel);
            proof {
                assert(pre + (sel_ops + spec_collected(entries@, walks@, decrypt, i + 1)) =~= (pre
                    + sel_ops) + spec_collected(entries@, walks@, decrypt, i + 1));
            }
        }
        i = i + 1;
    }
    proof {
        assert(out@ + Seq::<String>::empty() =~= out@);
    }
    out
}

} // verus!
