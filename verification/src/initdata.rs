//! Measured initialization data: its device, its frame, its digest and the claims it makes.

use async_compression::tokio::bufread::GzipDecoder;
use sha2::{Digest, Sha256, Sha384, Sha512};
use std::future::Future;
use std::task::{Context, Poll, Waker};
use tokio::io::AsyncReadExt;
use vstd::prelude::*;
use vstd::slice::{slice_subrange, slice_to_vec};
use vstd::utf8::encode_utf8;

use crate::text::{
    chars_of, has_prefix, joined, law_joined_pieces_split_back, law_split_pieces_join_back,
    same_text, split, split_text, starts_with, texts,
};
use crate::text_map::TextMap;

verus! {

/// This is the target directory to store the extracted initdata.
pub const INITDATA_PATH: &'static str = "/run/confidential-containers/initdata";

/// The path of initdata toml
pub const INITDATA_TOML_PATH: &'static str = "/run/confidential-containers/initdata/initdata.toml";

/// The path of AA's config file
pub const AA_CONFIG_PATH: &'static str = "/run/confidential-containers/initdata/aa.toml";

/// The path of CDH's config file
pub const CDH_CONFIG_PATH: &'static str = "/run/confidential-containers/initdata/cdh.toml";

pub const AA_CONFIG_KEY: &'static str = "aa.toml";

pub const CDH_CONFIG_KEY: &'static str = "cdh.toml";

pub const POLICY_KEY: &'static str = "policy.rego";

/// The claim that binds the workspace volume to its key.
pub const WORKSPACE_STORAGE_KEY_ID_CLAIM: &'static str = "codewire_workspace_storage_key_id";

/// initdata device with disk type 'vd*'
pub const INITDATA_PREFIX_DISK_VDX: &'static str = "vd";

/// initdata device with disk type 'sd*'
pub const INITDATA_PREFIX_DISK_SDX: &'static str = "sd";

/// Why initialization data is refused.
#[derive(Debug)]
pub enum InitdataError {
    /// The device ends before the announced data does. The message is that of tokio's `read_exact`.
    Truncated,
    /// The data cannot be decompressed.
    Decompression(String),
    /// The data is refused by its own validation.
    Validation(String),
    /// The key ID claim is not a canonical UUID.
    InvalidKeyClaim,
    /// A key ID claim has been recorded before.
    KeyClaimTwice,
    /// The digest algorithm is not known.
    UnsupportedAlgorithm(String),
}

impl InitdataError {
    /// The text of the message for this error.
    pub open spec fn text(&self) -> Seq<char> {
        match self {
            InitdataError::Truncated => "early eof"@,
            InitdataError::Decompression(reason) => reason@,
            InitdataError::Validation(reason) => reason@,
            InitdataError::InvalidKeyClaim => "invalid confidential storage key ID claim"@,
            InitdataError::KeyClaimTwice =>
                "confidential storage key ID claim initialized twice"@,
            InitdataError::UnsupportedAlgorithm(algorithm) => "Unsupported hash algorithm "@
                + algorithm@,
        }
    }

    /// The message for this error.
    pub fn message(&self) -> (message: String)
        ensures
            message@ == self.text(),
    {
        match self {
            InitdataError::Truncated => "early eof".to_owned(),
            InitdataError::Decompression(reason) => reason.clone(),
            InitdataError::Validation(reason) => reason.clone(),
            InitdataError::InvalidKeyClaim => {
                "invalid confidential storage key ID claim".to_owned()
            },
            InitdataError::KeyClaimTwice => {
                "confidential storage key ID claim initialized twice".to_owned()
            },
            InitdataError::UnsupportedAlgorithm(algorithm) => {
                let mut text = "Unsupported hash algorithm ".to_owned();
                text.append(algorithm.as_str());
                text
            },
        }
    }
}

/// Initialization data: a version, a digest algorithm and named texts.
#[derive(Debug)]
pub struct InitData {
    pub version: String,
    pub algorithm: String,
    pub data: TextMap<String>,
}

impl InitData {
    /// Initialization data without any text.
    pub fn new(algorithm: &str, version: &str) -> (initdata: Self)
        ensures
            initdata.algorithm@ == algorithm@,
            initdata.version@ == version@,
            initdata.data@ == Map::<Seq<char>, String>::empty(),
    {
        InitData {
            version: version.to_owned(),
            algorithm: algorithm.to_owned(),
            data: TextMap::new(),
        }
    }

    /// Sets the text for `key`.
    pub fn insert_data(&mut self, key: String, data: String)
        ensures
            final(self).data@ == old(self).data@.insert(key@, data),
            final(self).version == old(self).version,
            final(self).algorithm == old(self).algorithm,
    {
        self.data.insert(key, data);
    }

    /// The text for `key`.
    pub fn get_coco_data(&self, key: &str) -> (data: Option<&String>)
        ensures
            match data {
                Some(data) => entry_of(*self, key@) == Some(*data),
                None => entry_of(*self, key@) is None,
            },
    {
        self.data.get(key)
    }
}

/// The text for `key` in initialization data.
pub open spec fn entry_of(initdata: InitData, key: Seq<char>) -> Option<String> {
    if initdata.data@.dom().contains(key) {
        Some(initdata.data@[key])
    } else {
        None
    }
}

/// The lengths of the groups of a UUID.
pub open spec fn uuid_group_length(group: int) -> nat {
    if group == 0 {
        8
    } else if group == 4 {
        12
    } else {
        4
    }
}

/// Lower-case hexadecimal digits.
pub open spec fn is_lower_hex(c: char) -> bool {
    '0' <= c <= '9' || 'a' <= c <= 'f'
}

/// Whether a text is a UUID in its canonical form: five groups of lower-case hexadecimal digits,
/// joined by hyphens.
pub open spec fn is_canonical(value: Seq<char>) -> bool {
    let groups = split(value, '-');
    &&& groups.len() == 5
    &&& forall|g: int| 0 <= g < 5 ==> is_uuid_group(#[trigger] groups[g], uuid_group_length(g))
}

/// Whether a text is a given number of lower-case hexadecimal digits.
pub open spec fn is_uuid_group(group: Seq<char>, length: nat) -> bool {
    group.len() == length && forall|i: int|
        0 <= i < group.len() ==> is_lower_hex(#[trigger] group[i])
}

fn uuid_group(group: &str, length: usize) -> (result: bool)
    ensures
        result == is_uuid_group(group@, length as nat),
{
    let chars = chars_of(group);
    if chars.len() != length {
        return false;
    }
    let mut i: usize = 0;
    while i < chars.len()
        invariant
            chars@ == group@,
            i <= chars.len(),
            forall|j: int| 0 <= j < i ==> is_lower_hex(#[trigger] group@[j]),
        decreases chars.len() - i,
    {
        let c = chars[i];
        let accepted = ('0' <= c && c <= '9') || ('a' <= c && c <= 'f');
        if !accepted {
            assert(!is_lower_hex(group@[i as int]));
            return false;
        }
        i = i + 1;
    }
    true
}

/// Whether a text is a UUID in its canonical form.
pub fn is_canonical_uuid(value: &str) -> (canonical: bool)
    ensures
        canonical == is_canonical(value@),
{
    let groups = split_text(value, '-');
    if groups.len() != 5 {
        assert(texts(groups@).len() != 5);
        return false;
    }
    let lengths: [usize; 5] = [8, 4, 4, 4, 12];
    let mut g: usize = 0;
    while g < 5
        invariant
            g <= 5,
            groups@.len() == 5,
            texts(groups@) == split(value@, '-'),
            forall|k: int| 0 <= k < 5 ==> #[trigger] lengths@[k] == uuid_group_length(k),
            forall|k: int|
                0 <= k < g ==> is_uuid_group(
                    #[trigger] split(value@, '-')[k],
                    uuid_group_length(k),
                ),
        decreases 5 - g,
    {
        assert(split(value@, '-')[g as int] == groups@[g as int]@);
        if !uuid_group(groups[g].as_str(), lengths[g]) {
            return false;
        }
        g = g + 1;
    }
    true
}

/// The key ID that initialization data claims for the workspace volume.
pub open spec fn key_claim(initdata: InitData) -> Result<Option<String>, InitdataError> {
    match entry_of(initdata, WORKSPACE_STORAGE_KEY_ID_CLAIM@) {
        None => Ok(None),
        Some(key_id) => if is_canonical(key_id@) {
            Ok(Some(key_id))
        } else {
            Err(InitdataError::InvalidKeyClaim)
        },
    }
}

/// The key ID that initialization data claims for the workspace volume.
pub fn workspace_storage_key_id_from_initdata(initdata: &InitData) -> (result: Result<
    Option<String>,
    InitdataError,
>)
    ensures
        result == key_claim(*initdata),
{
    match initdata.get_coco_data(WORKSPACE_STORAGE_KEY_ID_CLAIM) {
        None => Ok(None),
        Some(key_id) => {
            if !is_canonical_uuid(key_id.as_str()) {
                return Err(InitdataError::InvalidKeyClaim);
            }
            Ok(Some(key_id.clone()))
        },
    }
}

/// The measured key ID of the workspace volume. It is recorded at most once.
#[derive(Debug)]
pub struct WorkspaceStorageKey {
    pub id: Option<String>,
}

impl WorkspaceStorageKey {
    /// No key ID yet.
    pub fn new() -> (key: Self)
        ensures
            key.id is None,
    {
        WorkspaceStorageKey { id: None }
    }

    /// The recorded key ID.
    pub fn workspace_storage_key_id(&self) -> (id: Option<&String>)
        ensures
            match id {
                Some(id) => self.id == Some(*id),
                None => self.id is None,
            },
    {
        match &self.id {
            Some(id) => Some(id),
            None => None,
        }
    }

    /// Records the key ID, unless one is recorded already.
    pub fn set(&mut self, id: String) -> (result: Result<(), InitdataError>)
        ensures
            match old(self).id {
                Some(_) => result == Err::<(), _>(InitdataError::KeyClaimTwice) && *final(self)
                    == *old(self),
                None => result is Ok && final(self).id == Some(id),
            },
    {
        if self.id.is_some() {
            return Err(InitdataError::KeyClaimTwice);
        }
        self.id = Some(id);
        Ok(())
    }
}

/// Magic number of initdata device
pub open spec fn initdata_magic() -> Seq<u8> {
    seq![0x69u8, 0x6e, 0x69, 0x74, 0x64, 0x61, 0x74, 0x61]
}

/// What to do next with an entry of the device directory.
#[derive(Clone, Copy, Debug, PartialEq, Eq, Structural)]
pub enum DeviceCheck {
    /// Leave the entry.
    Skip,
    /// Find out whether the entry is a block device.
    Inspect,
    /// Read the first eight bytes of the device.
    ReadMagic,
    /// The entry is the initdata device.
    Found,
}

/// Whether the name of a device is that of a supported disk: virtio-blk (vd*) or virtio-scsi
/// (sd*).
pub open spec fn is_disk_name(name: Seq<char>) -> bool {
    has_prefix(name, INITDATA_PREFIX_DISK_VDX@) || has_prefix(name, INITDATA_PREFIX_DISK_SDX@)
}

/// The next step of the search for the initdata device, from what is known of an entry: its name,
/// whether it is a block device, and its first bytes, where they could be read.
pub open spec fn next_device_check(
    name: Seq<char>,
    is_block_device: Option<bool>,
    magic: Option<Option<Seq<u8>>>,
) -> DeviceCheck {
    if !is_disk_name(name) {
        DeviceCheck::Skip
    } else {
        match is_block_device {
            None => DeviceCheck::Inspect,
            Some(false) => DeviceCheck::Skip,
            Some(true) => match magic {
                None => DeviceCheck::ReadMagic,
                Some(None) => DeviceCheck::Skip,
                Some(Some(magic)) => if magic == initdata_magic() {
                    DeviceCheck::Found
                } else {
                    DeviceCheck::Skip
                },
            },
        }
    }
}

/// Decides the next step of the search for the initdata device. `magic` is absent before the
/// device is read, and `Some(None)` where reading failed.
pub fn detect_initdata_device(
    name: &str,
    is_block_device: Option<bool>,
    magic: Option<Option<&Vec<u8>>>,
) -> (check: DeviceCheck)
    ensures
        check == next_device_check(
            name@,
            is_block_device,
            match magic {
                None => None,
                Some(None) => Some(None),
                Some(Some(magic)) => Some(Some(magic@)),
            },
        ),
{
    if !starts_with(name, INITDATA_PREFIX_DISK_VDX) && !starts_with(name, INITDATA_PREFIX_DISK_SDX) {
        return DeviceCheck::Skip;
    }
    match is_block_device {
        None => DeviceCheck::Inspect,
        Some(false) => DeviceCheck::Skip,
        Some(true) => match magic {
            None => DeviceCheck::ReadMagic,
            Some(None) => DeviceCheck::Skip,
            Some(Some(magic)) => {
                if is_magic(magic) {
                    DeviceCheck::Found
                } else {
                    DeviceCheck::Skip
                }
            },
        },
    }
}

fn is_magic(magic: &Vec<u8>) -> (result: bool)
    ensures
        result == (magic@ == initdata_magic()),
{
    let expected: [u8; 8] = [0x69, 0x6e, 0x69, 0x74, 0x64, 0x61, 0x74, 0x61];
    assert(expected@ =~= initdata_magic());
    if magic.len() != 8 {
        return false;
    }
    let mut i: usize = 0;
    while i < 8
        invariant
            i <= 8,
            magic@.len() == 8,
            expected@ == initdata_magic(),
            forall|j: int| 0 <= j < i ==> magic@[j] == expected@[j],
        decreases 8 - i,
    {
        if magic[i] != expected[i] {
            return false;
        }
        i = i + 1;
    }
    assert(magic@ =~= initdata_magic());
    true
}

/// The number that eight bytes stand for, lowest byte first.
pub open spec fn little_endian(bytes: Seq<u8>) -> nat {
    (bytes[0] + 0x100 * bytes[1] + 0x1_0000 * bytes[2] + 0x100_0000 * bytes[3] + 0x1_0000_0000
        * bytes[4] + 0x100_0000_0000 * bytes[5] + 0x1_0000_0000_0000 * bytes[6]
        + 0x100_0000_0000_0000 * bytes[7]) as nat
}

/// The compressed length that the header of an initdata device announces: eight bytes of magic,
/// then eight bytes of length.
pub fn initdata_length(header: &[u8]) -> (length: Option<u64>)
    ensures
        match length {
            Some(length) => header@.len() >= 16 && length == little_endian(header@.skip(8)),
            None => header@.len() < 16,
        },
{
    if header.len() < 16 {
        return None;
    }
    let length: u64 = header[8] as u64 + 0x100 * header[9] as u64 + 0x1_0000 * header[10] as u64
        + 0x100_0000 * header[11] as u64 + 0x1_0000_0000 * header[12] as u64 + 0x100_0000_0000
        * header[13] as u64 + 0x1_0000_0000_0000 * header[14] as u64 + 0x100_0000_0000_0000
        * header[15] as u64;
    assert(length == little_endian(header@.skip(8)));
    Some(length)
}

/// What a gzip stream decompresses to, or the message of the error where it cannot be decompressed.
pub uninterp spec fn gunzipped(data: Seq<u8>) -> Result<Seq<u8>, Seq<char>>;

/// Decompresses a gzip stream.
///
/// Calls `read_to_end` on async_compression's `GzipDecoder` over the bytes in memory, which is
/// ready at the first poll. The result, or the message of the error, depends on the bytes alone
/// and is named `gunzipped`.
#[verifier::external_body]
fn gunzip(data: &[u8]) -> (result: Result<Vec<u8>, String>)
    ensures
        match result {
            Ok(plain) => gunzipped(data@) == Ok::<Seq<u8>, Seq<char>>(plain@),
            Err(reason) => gunzipped(data@) == Err::<Seq<u8>, Seq<char>>(reason@),
        },
{
    let mut decoder = GzipDecoder::new(data);
    let mut plain: Vec<u8> = Vec::new();
    let mut read = Box::pin(decoder.read_to_end(&mut plain));
    let polled = read.as_mut().poll(&mut Context::from_waker(Waker::noop()));
    drop(read);
    match polled {
        Poll::Ready(Ok(_)) => Ok(plain),
        Poll::Ready(Err(error)) => Err(error.to_string()),
        Poll::Pending => Err(std::io::ErrorKind::WouldBlock.to_string()),
    }
}

/// The compressed data on an initdata device, where the device is long enough.
pub open spec fn initdata_payload(device: Seq<u8>) -> Option<Seq<u8>> {
    if device.len() < 16 || device.len() - 16 < little_endian(device.skip(8)) {
        None
    } else {
        Some(device.subrange(16, 16 + little_endian(device.skip(8)) as int))
    }
}

/// The compressed data on an initdata device.
pub fn initdata_frame(device: &[u8]) -> (payload: Result<&[u8], InitdataError>)
    ensures
        match payload {
            Ok(payload) => initdata_payload(device@) == Some(payload@),
            Err(error) => initdata_payload(device@) is None && error is Truncated,
        },
{
    match initdata_length(device) {
        Some(length) => {
            if ((device.len() - 16) as u64) < length {
                return Err(InitdataError::Truncated);
            }
            Ok(slice_subrange(device, 16, 16 + length as usize))
        },
        None => Err(InitdataError::Truncated),
    }
}

/// Reads the initialization data from the contents of its device.
pub fn read_initdata(device: &[u8]) -> (result: Result<Vec<u8>, InitdataError>)
    ensures
        match initdata_payload(device@) {
            None => result == Err::<Vec<u8>, _>(InitdataError::Truncated),
            Some(payload) => match gunzipped(payload) {
                Ok(plain) => result matches Ok(data) && data@ == plain,
                Err(message) => result matches Err(InitdataError::Decompression(reason))
                    && reason@ == message,
            },
        },
{
    let payload = initdata_frame(device)?;
    match gunzip(payload) {
        Ok(plain) => Ok(plain),
        Err(reason) => Err(InitdataError::Decompression(reason)),
    }
}

/// The SHA-256 digest of some bytes.
pub uninterp spec fn sha256(data: Seq<u8>) -> Seq<u8>;

/// The SHA-384 digest of some bytes.
pub uninterp spec fn sha384(data: Seq<u8>) -> Seq<u8>;

/// The SHA-512 digest of some bytes.
pub uninterp spec fn sha512(data: Seq<u8>) -> Seq<u8>;

/// Calls sha2's `Sha256::digest`. The digest depends on the bytes alone, is named `sha256` and has
/// 32 bytes.
#[verifier::external_body]
fn sha256_digest(data: &[u8]) -> (digest: Vec<u8>)
    ensures
        digest@ == sha256(data@),
        digest@.len() == 32,
{
    Sha256::digest(data).to_vec()
}

/// Calls sha2's `Sha384::digest`. The digest depends on the bytes alone, is named `sha384` and has
/// 48 bytes.
#[verifier::external_body]
fn sha384_digest(data: &[u8]) -> (digest: Vec<u8>)
    ensures
        digest@ == sha384(data@),
        digest@.len() == 48,
{
    Sha384::digest(data).to_vec()
}

/// Calls sha2's `Sha512::digest`. The digest depends on the bytes alone, is named `sha512` and has
/// 64 bytes.
#[verifier::external_body]
fn sha512_digest(data: &[u8]) -> (digest: Vec<u8>)
    ensures
        digest@ == sha512(data@),
        digest@.len() == 64,
{
    Sha512::digest(data).to_vec()
}

/// The digest of some bytes under a named algorithm, where it is known.
pub open spec fn digest_of(algorithm: Seq<char>, data: Seq<u8>) -> Option<Seq<u8>> {
    if algorithm == "sha256"@ {
        Some(sha256(data))
    } else if algorithm == "sha384"@ {
        Some(sha384(data))
    } else if algorithm == "sha512"@ {
        Some(sha512(data))
    } else {
        None
    }
}

/// The length of the digest under a known algorithm.
pub open spec fn digest_length(algorithm: Seq<char>) -> nat {
    if algorithm == "sha256"@ {
        32
    } else if algorithm == "sha384"@ {
        48
    } else {
        64
    }
}

/// Computes the digest of initialization data.
pub fn initdata_digest(algorithm: &String, content: &[u8]) -> (result: Result<
    Vec<u8>,
    InitdataError,
>)
    ensures
        match digest_of(algorithm@, content@) {
            Some(expected) => result matches Ok(digest) && digest@ == expected && digest@.len()
                == digest_length(algorithm@),
            None => result == Err::<Vec<u8>, _>(InitdataError::UnsupportedAlgorithm(*algorithm)),
        },
{
    proof {
        reveal_strlit("sha256");
        reveal_strlit("sha384");
        reveal_strlit("sha512");
        assert("sha256"@[3] != "sha384"@[3]);
    }
    if same_text(algorithm.as_str(), "sha256") {
        Ok(sha256_digest(content))
    } else if same_text(algorithm.as_str(), "sha384") {
        Ok(sha384_digest(content))
    } else if same_text(algorithm.as_str(), "sha512") {
        Ok(sha512_digest(content))
    } else {
        Err(InitdataError::UnsupportedAlgorithm(algorithm.clone()))
    }
}

/// What initialization data yields: its digest and the policy that it holds.
#[derive(Debug)]
pub struct InitdataReturnValue {
    pub _digest: Vec<u8>,
    pub _policy: Option<String>,
}

/// A file that is to be written.
#[derive(Debug)]
pub struct InitdataWrite {
    pub path: String,
    pub contents: Vec<u8>,
}

/// The files that initialization data asks for, to be written in order until one fails, and the
/// outcome once all are written.
#[derive(Debug)]
pub struct InitdataPlan {
    pub writes: Vec<InitdataWrite>,
    pub outcome: Result<InitdataReturnValue, InitdataError>,
}

/// The contents of a list of writes.
pub open spec fn write_views(writes: Seq<InitdataWrite>) -> Seq<(Seq<char>, Seq<u8>)> {
    Seq::new(writes.len(), |i: int| (writes[i].path@, writes[i].contents@))
}

/// The write of the text for `key` to `path`, where there is one.
pub open spec fn config_write(initdata: InitData, key: Seq<char>, path: Seq<char>) -> Seq<
    (Seq<char>, Seq<u8>),
> {
    match entry_of(initdata, key) {
        Some(config) => seq![(path, encode_utf8(config@))],
        None => Seq::empty(),
    }
}

/// The files that initialization data asks for: itself and, where its digest algorithm is known,
/// the configurations that it holds.
pub open spec fn initdata_writes(initdata: InitData, content: Seq<u8>) -> Seq<
    (Seq<char>, Seq<u8>),
> {
    let toml = seq![(INITDATA_TOML_PATH@, content)];
    if digest_of(initdata.algorithm@, content) is None {
        toml
    } else {
        toml + config_write(initdata, AA_CONFIG_KEY@, AA_CONFIG_PATH@) + config_write(
            initdata,
            CDH_CONFIG_KEY@,
            CDH_CONFIG_PATH@,
        )
    }
}

/// Why initialization data is refused before anything is written.
pub open spec fn initdata_refusal(
    key: WorkspaceStorageKey,
    initdata: InitData,
    validation: Result<(), String>,
) -> Option<InitdataError> {
    match validation {
        Err(reason) => Some(InitdataError::Validation(reason)),
        Ok(_) => match key_claim(initdata) {
            Err(error) => Some(error),
            Ok(Some(_)) => if key.id is Some {
                Some(InitdataError::KeyClaimTwice)
            } else {
                None
            },
            Ok(None) => None,
        },
    }
}

fn write_of(path: &str, contents: Vec<u8>) -> (write: InitdataWrite)
    ensures
        write.path@ == path@,
        write.contents == contents,
{
    InitdataWrite { path: path.to_owned(), contents }
}

fn push_config(writes: &mut Vec<InitdataWrite>, initdata: &InitData, key: &str, path: &str)
    ensures
        write_views(final(writes)@) == write_views(old(writes)@) + config_write(
            *initdata,
            key@,
            path@,
        ),
{
    let ghost before = write_views(writes@);
    match initdata.get_coco_data(key) {
        Some(config) => {
            writes.push(write_of(path, config.as_str().as_bytes_vec()));
            assert(write_views(writes@) =~= before.push((path@, encode_utf8(config@))));
            assert(write_views(writes@) =~= before + config_write(*initdata, key@, path@));
        },
        None => {
            assert(write_views(writes@) =~= before + config_write(*initdata, key@, path@));
        },
    }
}

/// Takes over initialization data that reads `content` and was parsed to `initdata`: records its
/// key ID claim and lists the files that it asks for. `validation` is the verdict of the data's
/// own validation.
pub fn initialize_initdata(
    key: &mut WorkspaceStorageKey,
    initdata: &InitData,
    content: &[u8],
    validation: Result<(), String>,
) -> (result: Result<InitdataPlan, InitdataError>)
    ensures
        match initdata_refusal(*old(key), *initdata, validation) {
            Some(error) => result == Err::<InitdataPlan, _>(error) && *final(key) == *old(key),
            None => {
                &&& final(key).id == match key_claim(*initdata) {
                    Ok(Some(id)) => Some(id),
                    _ => old(key).id,
                }
                &&& result matches Ok(plan)
                &&& write_views(plan.writes@) == initdata_writes(*initdata, content@)
                &&& match digest_of(initdata.algorithm@, content@) {
                    Some(digest) => {
                        &&& plan.outcome matches Ok(value)
                        &&& value._digest@ == digest
                        &&& value._digest@.len() == digest_length(initdata.algorithm@)
                        &&& value._policy == entry_of(*initdata, POLICY_KEY@)
                    },
                    None => plan.outcome == Err::<InitdataReturnValue, _>(
                        InitdataError::UnsupportedAlgorithm(initdata.algorithm),
                    ),
                }
            },
        },
{
    match validation {
        Ok(_) => {},
        Err(reason) => {
            return Err(InitdataError::Validation(reason));
        },
    }
    match workspace_storage_key_id_from_initdata(initdata)? {
        Some(key_id) => {
            key.set(key_id)?;
        },
        None => {},
    }
    let mut writes: Vec<InitdataWrite> = Vec::new();
    writes.push(write_of(INITDATA_TOML_PATH, slice_to_vec(content)));
    assert(write_views(writes@) =~= seq![(INITDATA_TOML_PATH@, content@)]);
    let digest = match initdata_digest(&initdata.algorithm, content) {
        Ok(digest) => digest,
        Err(error) => {
            return Ok(InitdataPlan { writes, outcome: Err(error) });
        },
    };
    push_config(&mut writes, initdata, AA_CONFIG_KEY, AA_CONFIG_PATH);
    push_config(&mut writes, initdata, CDH_CONFIG_KEY, CDH_CONFIG_PATH);
    let policy = match initdata.get_coco_data(POLICY_KEY) {
        Some(policy) => Some(policy.clone()),
        None => None,
    };
    Ok(
        InitdataPlan {
            writes,
            outcome: Ok(InitdataReturnValue { _digest: digest, _policy: policy }),
        },
    )
}

/// Reading gives back what was framed: a device that holds the magic, the length of `payload` and
/// `payload` itself has `payload` as its compressed data, whatever follows.
pub proof fn law_frame_holds_its_payload(
    magic: Seq<u8>,
    length: Seq<u8>,
    payload: Seq<u8>,
    rest: Seq<u8>,
)
    requires
        magic.len() == 8,
        length.len() == 8,
        little_endian(length) == payload.len(),
    ensures
        initdata_payload(magic + length + payload + rest) == Some(payload),
{
    let device = magic + length + payload + rest;
    assert(little_endian(device.skip(8)) == little_endian(length));
    assert(device.subrange(16, 16 + payload.len() as int) =~= payload);
}

/// Initialization data that is taken over is written out: first the data itself and then, whatever
/// digest algorithm of the known ones it names, the configuration of the attestation agent and that
/// of the data hub, each if and only if the data holds it. Nothing else is written. Where the
/// algorithm is not known, only the data itself is written.
pub proof fn law_configurations_are_written_if_and_only_if_held(
    key: &mut WorkspaceStorageKey,
    initdata: InitData,
    content: &[u8],
    validation: Result<(), String>,
    plan: InitdataPlan,
)
    requires
        call_ensures(initialize_initdata, (key, &initdata, content, validation), Ok(plan)),
    ensures
        ({
            let writes = plan.writes@;
            let aa = initdata.data@.dom().contains("aa.toml"@);
            let cdh = initdata.data@.dom().contains("cdh.toml"@);
            let aa_path = "/run/confidential-containers/initdata/aa.toml"@;
            let cdh_path = "/run/confidential-containers/initdata/cdh.toml"@;
            &&& writes.len() > 0
            &&& writes[0].path@ == "/run/confidential-containers/initdata/initdata.toml"@
            &&& writes[0].contents@ == content@
            &&& plan.outcome is Err ==> writes.len() == 1
            &&& plan.outcome is Ok ==> {
                &&& writes.len() == 1 + (if aa {
                    1int
                } else {
                    0
                }) + (if cdh {
                    1int
                } else {
                    0
                })
                &&& aa ==> {
                    &&& writes[1].path@ == aa_path
                    &&& writes[1].contents@ == encode_utf8(initdata.data@["aa.toml"@]@)
                }
                &&& cdh ==> {
                    &&& writes[writes.len() - 1].path@ == cdh_path
                    &&& writes[writes.len() - 1].contents@ == encode_utf8(
                        initdata.data@["cdh.toml"@]@,
                    )
                }
                &&& aa <==> exists|i: int|
                    0 <= i < writes.len() && (#[trigger] writes[i]).path@ == aa_path
                &&& cdh <==> exists|i: int|
                    0 <= i < writes.len() && (#[trigger] writes[i]).path@ == cdh_path
            }
        }),
{
    let views = write_views(plan.writes@);
    let expected = initdata_writes(initdata, content@);
    assert(views.len() == plan.writes@.len());
    assert forall|i: int| 0 <= i < plan.writes@.len() implies views[i] == (
        (#[trigger] plan.writes@[i]).path@,
        plan.writes@[i].contents@,
    ) by {}
    let aa_path = AA_CONFIG_PATH@;
    let cdh_path = CDH_CONFIG_PATH@;
    reveal_strlit("/run/confidential-containers/initdata/initdata.toml");
    reveal_strlit("/run/confidential-containers/initdata/aa.toml");
    reveal_strlit("/run/confidential-containers/initdata/cdh.toml");
    assert(INITDATA_TOML_PATH@.len() != aa_path.len());
    assert(INITDATA_TOML_PATH@.len() != cdh_path.len());
    assert(aa_path.len() != cdh_path.len());
    if plan.outcome is Ok {
        if initdata.data@.dom().contains("aa.toml"@) {
            assert(views[1] == expected[1]);
            assert(plan.writes@[1].path@ == aa_path);
        }
        if initdata.data@.dom().contains("cdh.toml"@) {
            assert(views[views.len() - 1] == expected[expected.len() - 1]);
            assert(plan.writes@[plan.writes@.len() - 1].path@ == cdh_path);
        }
    }
}

/// What becomes of initialization data: it is refused, before anything is written or recorded,
/// exactly where its own validation refuses it, its key ID claim is not a canonical UUID, or a claim
/// comes a second time. Else its claim, if any, is recorded, its digest is that of the algorithm
/// that it names, and its policy is handed on. An unknown algorithm is an error.
pub proof fn law_initdata_is_measured_and_bound(
    key: &mut WorkspaceStorageKey,
    initdata: InitData,
    content: &[u8],
    validation: Result<(), String>,
    result: Result<InitdataPlan, InitdataError>,
)
    requires
        call_ensures(initialize_initdata, (key, &initdata, content, validation), result),
    ensures
        ({
            let claimed = initdata.data@.dom().contains("codewire_workspace_storage_key_id"@);
            let claim = initdata.data@["codewire_workspace_storage_key_id"@];
            &&& result is Ok <==> {
                &&& validation is Ok
                &&& claimed ==> is_canonical(claim@) && old(key).id is None
            }
            &&& result is Err ==> final(key).id == old(key).id && match result->Err_0 {
                InitdataError::Validation(reason) => validation == Err::<(), _>(reason),
                InitdataError::InvalidKeyClaim => {
                    validation is Ok && claimed && !is_canonical(claim@)
                },
                InitdataError::KeyClaimTwice => {
                    validation is Ok && claimed && is_canonical(claim@) && old(key).id is Some
                },
                _ => false,
            }
            &&& result is Ok && claimed ==> final(key).id == Some(claim)
            &&& result is Ok && !claimed ==> final(key).id == old(key).id
            &&& result is Ok ==> {
                let outcome = result->Ok_0.outcome;
                let algorithm = initdata.algorithm@;
                &&& outcome is Ok <==> algorithm == "sha256"@ || algorithm == "sha384"@
                    || algorithm == "sha512"@
                &&& outcome is Err ==> outcome->Err_0 == InitdataError::UnsupportedAlgorithm(
                    initdata.algorithm,
                )
                &&& algorithm == "sha256"@ ==> outcome->Ok_0._digest@ == sha256(content@)
                    && outcome->Ok_0._digest@.len() == 32
                &&& algorithm == "sha384"@ ==> outcome->Ok_0._digest@ == sha384(content@)
                    && outcome->Ok_0._digest@.len() == 48
                &&& algorithm == "sha512"@ ==> outcome->Ok_0._digest@ == sha512(content@)
                    && outcome->Ok_0._digest@.len() == 64
                &&& outcome is Ok ==> {
                    &&& outcome->Ok_0._policy is Some <==> initdata.data@.dom().contains(
                        "policy.rego"@,
                    )
                    &&& outcome->Ok_0._policy is Some ==> outcome->Ok_0._policy->0
                        == initdata.data@["policy.rego"@]
                }
            }
        }),
{
    lemma_algorithms_differ();
}

proof fn lemma_algorithms_differ()
    ensures
        "sha256"@ != "sha384"@,
        "sha256"@ != "sha512"@,
        "sha384"@ != "sha512"@,
{
    reveal_strlit("sha256");
    reveal_strlit("sha384");
    reveal_strlit("sha512");
    assert("sha256"@[3] == '2');
    assert("sha384"@[3] == '3');
    assert("sha512"@[3] == '5');
}

/// The digest of some bytes is the one that its algorithm names, and there is none for an algorithm
/// that is not known.
pub proof fn law_digest_is_that_of_its_algorithm(
    algorithm: String,
    content: &[u8],
    result: Result<Vec<u8>, InitdataError>,
)
    requires
        call_ensures(initdata_digest, (&algorithm, content), result),
    ensures
        algorithm@ == "sha256"@ ==> result is Ok && result->Ok_0@ == sha256(content@)
            && result->Ok_0@.len() == 32,
        algorithm@ == "sha384"@ ==> result is Ok && result->Ok_0@ == sha384(content@)
            && result->Ok_0@.len() == 48,
        algorithm@ == "sha512"@ ==> result is Ok && result->Ok_0@ == sha512(content@)
            && result->Ok_0@.len() == 64,
        algorithm@ != "sha256"@ && algorithm@ != "sha384"@ && algorithm@ != "sha512"@ ==> result
            == Err::<Vec<u8>, _>(InitdataError::UnsupportedAlgorithm(algorithm)),
{
    lemma_algorithms_differ();
}

/// A key ID is claimed exactly where the data holds it, and only as a canonical UUID.
pub proof fn law_key_claim_is_what_the_data_holds(
    initdata: InitData,
    result: Result<Option<String>, InitdataError>,
)
    requires
        call_ensures(workspace_storage_key_id_from_initdata, (&initdata,), result),
    ensures
        ({
            let claimed = initdata.data@.dom().contains("codewire_workspace_storage_key_id"@);
            let claim = initdata.data@["codewire_workspace_storage_key_id"@];
            &&& !claimed ==> result == Ok::<_, InitdataError>(None::<String>)
            &&& claimed && is_canonical(claim@) ==> result == Ok::<_, InitdataError>(Some(claim))
            &&& claimed && !is_canonical(claim@) ==> result is Err
                && result->Err_0 is InvalidKeyClaim
        }),
{
}

/// A key ID that has been recorded stays: it can be read, and no other can be recorded after it.
pub proof fn law_key_is_recorded_once(
    key: &mut WorkspaceStorageKey,
    id: String,
    result: Result<(), InitdataError>,
    afterwards: &mut WorkspaceStorageKey,
    other: String,
    second: Result<(), InitdataError>,
    read: Option<&String>,
)
    requires
        call_ensures(WorkspaceStorageKey::new, (), *old(key)),
        call_ensures(WorkspaceStorageKey::set, (key, id), result),
        *old(afterwards) == *final(key),
        call_ensures(WorkspaceStorageKey::set, (afterwards, other), second),
        call_ensures(WorkspaceStorageKey::workspace_storage_key_id, (final(afterwards),), read),
    ensures
        result is Ok,
        second is Err,
        second->Err_0 is KeyClaimTwice,
        read == Some(&id),
{
}

/// A text is a canonical UUID exactly where it is 36 characters long, with hyphens at the four
/// places where they belong and lower-case hexadecimal digits at all others.
pub proof fn law_canonical_uuids_are_written_in_one_way(value: &str, canonical: bool)
    requires
        call_ensures(is_canonical_uuid, (value,), canonical),
    ensures
        canonical <==> {
            &&& value@.len() == 36
            &&& forall|i: int|
                0 <= i < 36 ==> if i == 8 || i == 13 || i == 18 || i == 23 {
                    #[trigger] value@[i] == '-'
                } else {
                    '0' <= value@[i] <= '9' || 'a' <= value@[i] <= 'f'
                }
        },
{
    let text = value@;
    let groups = split(text, '-');
    law_split_pieces_join_back(text, '-');
    if is_canonical(text) {
        assert(is_uuid_group(groups[0], uuid_group_length(0)));
        assert(is_uuid_group(groups[1], uuid_group_length(1)));
        assert(is_uuid_group(groups[2], uuid_group_length(2)));
        assert(is_uuid_group(groups[3], uuid_group_length(3)));
        assert(is_uuid_group(groups[4], uuid_group_length(4)));
        lemma_five_joined(groups);
        assert forall|i: int| 0 <= i < 36 implies if i == 8 || i == 13 || i == 18 || i == 23 {
            #[trigger] text[i] == '-'
        } else {
            '0' <= text[i] <= '9' || 'a' <= text[i] <= 'f'
        } by {
            if i < 8 {
                assert(text[i] == groups[0][i]);
                assert(is_lower_hex(groups[0][i]));
            } else if 8 < i < 13 {
                assert(text[i] == groups[1][i - 9]);
                assert(is_lower_hex(groups[1][i - 9]));
            } else if 13 < i < 18 {
                assert(text[i] == groups[2][i - 14]);
                assert(is_lower_hex(groups[2][i - 14]));
            } else if 18 < i < 23 {
                assert(text[i] == groups[3][i - 19]);
                assert(is_lower_hex(groups[3][i - 19]));
            } else if 23 < i {
                assert(text[i] == groups[4][i - 24]);
                assert(is_lower_hex(groups[4][i - 24]));
            }
        }
    }
    if text.len() == 36 && forall|i: int|
        0 <= i < 36 ==> if i == 8 || i == 13 || i == 18 || i == 23 {
            #[trigger] text[i] == '-'
        } else {
            '0' <= text[i] <= '9' || 'a' <= text[i] <= 'f'
        } {
        let parts = seq![
            text.subrange(0, 8),
            text.subrange(9, 13),
            text.subrange(14, 18),
            text.subrange(19, 23),
            text.subrange(24, 36),
        ];
        lemma_five_joined(parts);
        assert(text[8] == '-' && text[13] == '-' && text[18] == '-' && text[23] == '-');
        assert(joined(parts, seq!['-']) =~= text);
        assert forall|g: int| 0 <= g < 5 implies is_uuid_group(
            #[trigger] parts[g],
            uuid_group_length(g),
        ) by {
            let from: int = if g == 0 {
                0
            } else {
                9 + 5 * (g - 1)
            };
            assert forall|k: int| 0 <= k < parts[g].len() implies is_lower_hex(
                #[trigger] parts[g][k],
            ) by {
                assert(parts[g][k] == text[from + k]);
            }
        }
        assert forall|g: int| 0 <= g < parts.len() implies !(#[trigger] parts[g]).contains('-') by {
            assert(is_uuid_group(parts[g], uuid_group_length(g)));
            if parts[g].contains('-') {
                let k = choose|k: int| 0 <= k < parts[g].len() && parts[g][k] == '-';
                assert(is_lower_hex(parts[g][k]));
            }
        }
        law_joined_pieces_split_back(parts, '-');
    }
}

proof fn lemma_five_joined(parts: Seq<Seq<char>>)
    requires
        parts.len() == 5,
    ensures
        joined(parts, seq!['-']) == parts[0] + seq!['-'] + parts[1] + seq!['-'] + parts[2]
            + seq!['-'] + parts[3] + seq!['-'] + parts[4],
{
    let hyphen = seq!['-'];
    assert(parts.take(5) =~= parts);
    assert(parts.take(5).drop_last() =~= parts.take(4));
    assert(parts.take(4).drop_last() =~= parts.take(3));
    assert(parts.take(3).drop_last() =~= parts.take(2));
    assert(parts.take(2).drop_last() =~= parts.take(1));
    assert(joined(parts.take(1), hyphen) == parts[0]);
    assert(joined(parts.take(2), hyphen) == joined(parts.take(1), hyphen) + hyphen + parts[1]);
    assert(joined(parts.take(3), hyphen) == joined(parts.take(2), hyphen) + hyphen + parts[2]);
    assert(joined(parts.take(4), hyphen) == joined(parts.take(3), hyphen) + hyphen + parts[3]);
    assert(joined(parts.take(5), hyphen) == joined(parts.take(4), hyphen) + hyphen + parts[4]);
}

/// The search finds exactly the disks that hold initialization data: entries named like virtio-blk
/// or virtio-scsi disks that are block devices and begin with the eight letters of `initdata`.
/// Nothing is inspected or read that the search can do without.
pub proof fn law_initdata_device_is_recognized(
    name: &str,
    unknown: DeviceCheck,
    is_block_device: bool,
    inspected: DeviceCheck,
    magic: Option<&Vec<u8>>,
    read: DeviceCheck,
)
    requires
        call_ensures(detect_initdata_device, (name, None, None), unknown),
        call_ensures(detect_initdata_device, (name, Some(is_block_device), None), inspected),
        call_ensures(detect_initdata_device, (name, Some(is_block_device), Some(magic)), read),
    ensures
        unknown is Inspect <==> has_prefix(name@, "vd"@) || has_prefix(name@, "sd"@),
        unknown is Inspect || unknown is Skip,
        inspected is ReadMagic <==> unknown is Inspect && is_block_device,
        inspected is ReadMagic || inspected is Skip,
        read is Found <==> inspected is ReadMagic && magic is Some && magic->0@ == seq![
            'i' as u8,
            'n' as u8,
            'i' as u8,
            't' as u8,
            'd' as u8,
            'a' as u8,
            't' as u8,
            'a' as u8,
        ],
        read is Found || read is Skip,
{
    assert(seq![
        'i' as u8,
        'n' as u8,
        'i' as u8,
        't' as u8,
        'd' as u8,
        'a' as u8,
        't' as u8,
        'a' as u8,
    ] =~= initdata_magic());
}

/// Eight bytes stand for a number by place value: the first is the lowest, and each counts 256
/// times as much as the one before it.
pub proof fn law_length_is_read_lowest_byte_first(header: &[u8], length: Option<u64>)
    requires
        call_ensures(initdata_length, (header,), length),
    ensures
        length is Some <==> header@.len() >= 16,
        length is Some ==> {
            let b = |i: int| header@[8 + i] as int;
            length->0 == b(0) + 256 * (b(1) + 256 * (b(2) + 256 * (b(3) + 256 * (b(4) + 256 * (b(5)
                + 256 * (b(6) + 256 * b(7)))))))
        },
{
}

/// What is read from a device is what its frame announces: the bytes after the header, as many as
/// the header says, decompressed. A device that ends before that is refused.
pub proof fn law_device_is_read_as_far_as_announced(
    device: &[u8],
    length: Option<u64>,
    payload: Result<&[u8], InitdataError>,
    result: Result<Vec<u8>, InitdataError>,
)
    requires
        call_ensures(initdata_length, (device,), length),
        call_ensures(initdata_frame, (device,), payload),
        call_ensures(read_initdata, (device,), result),
    ensures
        payload is Ok <==> length is Some && 16 + length->0 <= device@.len(),
        payload is Ok ==> payload->Ok_0@ == device@.subrange(16, 16 + length->0 as int),
        payload is Err ==> payload->Err_0 is Truncated && result is Err
            && result->Err_0 is Truncated,
        payload is Ok ==> (result is Ok <==> gunzipped(payload->Ok_0@) is Ok),
        payload is Ok && result is Ok ==> result->Ok_0@ == gunzipped(payload->Ok_0@)->Ok_0,
        payload is Ok && result is Err ==> result->Err_0 is Decompression
            && result->Err_0->Decompression_0@ == gunzipped(payload->Ok_0@)->Err_0,
{
}

/// Initialization data gives back the texts that were put into it, and keeps its algorithm and its
/// version.
pub proof fn law_initdata_gives_back_its_texts(
    algorithm: &str,
    version: &str,
    initdata: &mut InitData,
    key: String,
    data: String,
    wanted: &str,
    found: Option<&String>,
)
    requires
        call_ensures(InitData::new, (algorithm, version), *old(initdata)),
        call_ensures(InitData::insert_data, (initdata, key, data), ()),
        call_ensures(InitData::get_coco_data, (final(initdata), wanted), found),
    ensures
        final(initdata).algorithm@ == algorithm@,
        final(initdata).version@ == version@,
        wanted@ == key@ ==> found == Some(&data),
        wanted@ != key@ ==> found is None,
{
}

/// What is said of refused data: a reason from outside as it came, or what was wrong with the claim or the
/// algorithm.
pub proof fn law_initdata_messages_keep_the_reason(
    error: InitdataError,
    message: String,
)
    requires
        call_ensures(InitdataError::message, (&error,), message),
    ensures
        message@ == match error {
            InitdataError::Truncated => "early eof"@,
            InitdataError::Decompression(reason) => reason@,
            InitdataError::Validation(reason) => reason@,
            InitdataError::InvalidKeyClaim => "invalid confidential storage key ID claim"@,
            InitdataError::KeyClaimTwice =>
                "confidential storage key ID claim initialized twice"@,
            InitdataError::UnsupportedAlgorithm(algorithm) => "Unsupported hash algorithm "@
                + algorithm@,
        },
{
}

/// The written files lie in the directory for init-data, and the configurations have there the names
/// that they have in the data.
pub proof fn law_files_lie_in_the_initdata_directory()
    ensures
        INITDATA_PATH@ == "/run/confidential-containers/initdata"@,
        INITDATA_TOML_PATH@ == INITDATA_PATH@ + "/"@ + "initdata.toml"@,
        AA_CONFIG_PATH@ == INITDATA_PATH@ + "/"@ + AA_CONFIG_KEY@,
        CDH_CONFIG_PATH@ == INITDATA_PATH@ + "/"@ + CDH_CONFIG_KEY@,
{
    reveal_strlit("/");
    reveal_strlit("/run/confidential-containers/initdata");
    reveal_strlit("initdata.toml");
    reveal_strlit("aa.toml");
    reveal_strlit("cdh.toml");
    reveal_strlit("/run/confidential-containers/initdata/initdata.toml");
    reveal_strlit("/run/confidential-containers/initdata/aa.toml");
    reveal_strlit("/run/confidential-containers/initdata/cdh.toml");
    assert(INITDATA_TOML_PATH@ =~= INITDATA_PATH@ + "/"@ + "initdata.toml"@);
    assert(AA_CONFIG_PATH@ =~= INITDATA_PATH@ + "/"@ + AA_CONFIG_KEY@);
    assert(CDH_CONFIG_PATH@ =~= INITDATA_PATH@ + "/"@ + CDH_CONFIG_KEY@);
}

} // verus!
