//! The champion loader: reads champions from the bytes of their files and
//! places them in the arena.
//!
//! A champion file is laid out as follows, numbers big-endian:
//!
//! | offset | size | field                         |
//! |--------|------|-------------------------------|
//! | 0      | 4    | magic, `0x00EA83F3`           |
//! | 4      | 128  | name, padded with NUL         |
//! | 132    | 4    | padding, zero                 |
//! | 136    | 4    | size of the code              |
//! | 140    | 128  | comment, padded with NUL      |
//! | 268    | 4    | padding                       |
//! | 272    | size | code                          |

use vstd::prelude::*;
use vstd::utf8::{decode_utf8, valid_utf8};
use crate::constants::{MAX_CHAMPIONS, MEMORY_SIZE};
use crate::error::CoreWarError;
use crate::text::{decimal, decimal_text, hex_digits, hex_upper};
use crate::vm::memory::{word_byte, word_of, wrap, Memory};
use vstd::string::StringSliceAdditionalSpecFns;
use vstd::utf8::encode_utf8;
use crate::vm::{color_of, Champion};

verus! {

/// The magic number at the start of a champion file.
pub const COR_MAGIC: u32 = 0xea83f3;

/// The length of the name and of the comment in a champion file.
pub const TEXT_LENGTH: usize = 128;

/// The length of the header of a champion file.
pub const HEADER_LENGTH: usize = 272;

/// The header of a champion file.
#[derive(Debug, Clone)]
pub struct ChampionHeader {
    /// The magic number.
    pub magic: u32,
    /// The champion's name.
    pub name: String,
    /// The size of the code in bytes.
    pub code_size: u32,
    /// The champion's comment.
    pub comment: String,
}

/// What a header holds.
pub struct HeaderView {
    pub magic: u32,
    pub name: Seq<char>,
    pub code_size: u32,
    pub comment: Seq<char>,
}

impl View for ChampionHeader {
    type V = HeaderView;

    open spec fn view(&self) -> HeaderView {
        HeaderView {
            magic: self.magic,
            name: self.name@,
            code_size: self.code_size,
            comment: self.comment@,
        }
    }
}

/// Why champions cannot be loaded.
#[derive(Debug, Clone, Copy, PartialEq, Eq, Structural)]
pub enum LoadFault {
    /// The file ends before a field does.
    Truncated,
    /// The file does not start with the magic number.
    BadMagic { magic: u32 },
    /// The name or the comment is not UTF-8.
    BadText,
    /// The padding after the name is not zero.
    BadPadding,
    /// The code is larger than the arena.
    TooLarge { size: u32 },
    /// The id is not one of 1 to 4.
    BadId { id: u8 },
    /// The load address lies outside the arena.
    BadAddress { address: usize },
    /// There is no champion to load.
    NoChampions,
    /// There are more champions than a battle takes.
    TooMany { count: usize },
    /// There are not as many addresses as champions.
    AddressCount,
    /// Two champions start at the same address or overlap in the arena.
    Overlap,
    /// A name or a comment is longer than its field or holds a NUL.
    BadField,
}

/// The big-endian word at `at`.
pub open spec fn word_at(bytes: Seq<u8>, at: int) -> u32 {
    word_of(bytes[at], bytes[at + 1], bytes[at + 2], bytes[at + 3]) as u32
}

/// The number of bytes before the first NUL from `from` on, or up to the
/// end.
pub open spec fn text_end(bytes: Seq<u8>, from: int) -> int
    decreases bytes.len() - from,
{
    if from >= bytes.len() || bytes[from] == 0 {
        from
    } else {
        text_end(bytes, from + 1)
    }
}

/// The bytes of the text in a field of `len` bytes at `at`: those before the
/// first NUL.
pub open spec fn text_bytes(bytes: Seq<u8>, at: int, len: int) -> Seq<u8> {
    let field = bytes.subrange(at, at + len);
    field.subrange(0, text_end(field, 0))
}

/// What the bytes of a file say of its header, or the first reason why they
/// say nothing. The fields are read in order; the size of the code is held
/// against the arena only where `strict` is set.
pub open spec fn parse_header_bytes(bytes: Seq<u8>, strict: bool) -> Result<HeaderView, LoadFault> {
    if bytes.len() < 4 {
        Err(LoadFault::Truncated)
    } else if word_at(bytes, 0) != COR_MAGIC {
        Err(LoadFault::BadMagic { magic: word_at(bytes, 0) })
    } else if bytes.len() < 132 {
        Err(LoadFault::Truncated)
    } else if !valid_utf8(text_bytes(bytes, 4, 128)) {
        Err(LoadFault::BadText)
    } else if bytes.len() < 136 {
        Err(LoadFault::Truncated)
    } else if word_at(bytes, 132) != 0 {
        Err(LoadFault::BadPadding)
    } else if bytes.len() < 140 {
        Err(LoadFault::Truncated)
    } else if strict && word_at(bytes, 136) > MEMORY_SIZE {
        Err(LoadFault::TooLarge { size: word_at(bytes, 136) })
    } else if bytes.len() < 268 {
        Err(LoadFault::Truncated)
    } else if !valid_utf8(text_bytes(bytes, 140, 128)) {
        Err(LoadFault::BadText)
    } else if bytes.len() < 272 {
        Err(LoadFault::Truncated)
    } else {
        Ok(
            HeaderView {
                magic: word_at(bytes, 0),
                name: decode_utf8(text_bytes(bytes, 4, 128)),
                code_size: word_at(bytes, 136),
                comment: decode_utf8(text_bytes(bytes, 140, 128)),
            },
        )
    }
}

/// What a loaded champion holds.
pub struct Loaded {
    pub id: u8,
    pub name: Seq<char>,
    pub comment: Seq<char>,
    pub code: Seq<u8>,
    pub load_address: usize,
}

/// The load address of champion `id` where none is given: a quarter of the
/// arena for each id.
pub open spec fn default_address(id: u8) -> usize {
    ((id - 1) * (MEMORY_SIZE / 4)) as usize
}

/// What the bytes of a file give as champion `id`, or the first reason why
/// they give nothing: the id is checked first, then the header, then the
/// size of the code against the arena and against the file, then the load
/// address.
pub open spec fn load_bytes(bytes: Seq<u8>, strict: bool, id: u8, address: Option<usize>) -> Result<
    Loaded,
    LoadFault,
> {
    if id == 0 || id > 4 {
        Err(LoadFault::BadId { id })
    } else {
        match parse_header_bytes(bytes, strict) {
            Err(fault) => Err(fault),
            Ok(header) => if header.code_size > MEMORY_SIZE {
                Err(LoadFault::TooLarge { size: header.code_size })
            } else if bytes.len() < 272 + header.code_size {
                Err(LoadFault::Truncated)
            } else if address matches Some(a) && a >= MEMORY_SIZE {
                Err(LoadFault::BadAddress { address: address->Some_0 })
            } else {
                Ok(
                    Loaded {
                        id,
                        name: header.name,
                        comment: header.comment,
                        code: bytes.subrange(272, 272 + header.code_size),
                        load_address: match address {
                            Some(a) => a,
                            None => default_address(id),
                        },
                    },
                )
            },
        }
    }
}

/// Whether a champion is what was loaded, fresh: one process, no `live`.
pub open spec fn is_loaded(c: Champion, l: Loaded) -> bool {
    &&& c.id == l.id
    &&& c.name@ == l.name
    &&& c.comment@ == l.comment
    &&& c.code@ == l.code
    &&& c.load_address == l.load_address
    &&& c.process_count == 1
    &&& c.live_count == 0
    &&& c.color == color_of(l.id)
}

/// The message of a fault.
pub open spec fn fault_text(fault: LoadFault) -> Seq<char> {
    match fault {
        LoadFault::Truncated => "Champion file is truncated"@,
        LoadFault::BadMagic { magic } => "Invalid magic number: expected 0xEA83F3, got 0x"@
            + hex_digits(magic as nat, 1),
        LoadFault::BadText => "Invalid UTF-8 in string"@,
        LoadFault::BadPadding => "Header padding is not zero"@,
        LoadFault::TooLarge { size } => "Code size "@ + decimal_text(size as int)
            + " exceeds memory size "@ + decimal_text(MEMORY_SIZE as int),
        LoadFault::BadId { id } => "Invalid champion ID: "@ + decimal_text(id as int)
            + " (must be 1-4)"@,
        LoadFault::BadAddress { address } => "Load address "@ + decimal_text(address as int)
            + " is outside memory bounds ("@ + decimal_text(MEMORY_SIZE as int) + ")"@,
        LoadFault::NoChampions => "No champion files provided"@,
        LoadFault::TooMany { count } => "Too many champions: "@ + decimal_text(count as int)
            + " (maximum is 4)"@,
        LoadFault::AddressCount => "Number of custom addresses must match number of champion files"@,
        LoadFault::Overlap => "Champions overlap in memory"@,
        LoadFault::BadField => "Name and comment take at most 128 bytes and hold no NUL"@,
    }
}

/// Whether a fault is one of the header: those are reported as invalid
/// headers, the others as champion errors.
pub open spec fn is_header_fault(fault: LoadFault) -> bool {
    fault is BadMagic || fault is BadPadding || fault is TooLarge
}

/// Whether an error reports the given fault.
pub open spec fn reports(e: CoreWarError, fault: LoadFault) -> bool {
    if is_header_fault(fault) {
        e matches CoreWarError::InvalidHeader { message } && message@ == fault_text(fault)
    } else {
        e matches CoreWarError::Champion { message } && message@ == fault_text(fault)
    }
}

/// Whether a result gives what was expected: the value, or an error that
/// reports the fault.
pub open spec fn header_result(r: Result<ChampionHeader, CoreWarError>, expected: Result<
    HeaderView,
    LoadFault,
>) -> bool {
    match expected {
        Ok(h) => r matches Ok(header) && header@ == h,
        Err(fault) => r matches Err(e) && reports(e, fault),
    }
}

/// The same for a champion.
pub open spec fn champion_result(r: Result<Champion, CoreWarError>, expected: Result<
    Loaded,
    LoadFault,
>) -> bool {
    match expected {
        Ok(l) => r matches Ok(c) && is_loaded(c, l),
        Err(fault) => r matches Err(e) && reports(e, fault),
    }
}

/// Whether cell `j` lies in the range of `len` cells from `start`, round the
/// ring.
pub open spec fn covers(start: int, len: int, j: int) -> bool {
    wrap(j - start) < len
}

/// Whether two ranges of cells share a cell.
pub open spec fn overlapping(start1: int, len1: int, start2: int, len2: int) -> bool {
    exists|j: int| 0 <= j < MEMORY_SIZE && #[trigger] covers(start1, len1, j) && covers(start2, len2, j)
}

/// Whether two champions cannot be placed together: they start at the same
/// address, or their ranges share a cell.
pub open spec fn clashing(start1: int, len1: int, start2: int, len2: int) -> bool {
    start1 == start2 || overlapping(start1, len1, start2, len2)
}

/// Whether two of the loaded champions overlap.
pub open spec fn any_overlap(champions: Seq<Champion>) -> bool {
    exists|i: int, j: int|
        0 <= i < j < champions.len() && #[trigger] clashing(
            champions[i].load_address as int,
            champions[i].code@.len() as int,
            #[trigger] champions[j].load_address as int,
            champions[j].code@.len() as int,
        )
}

/// The text that the bytes hold, where they are UTF-8, as the standard
/// library's `String::from_utf8` decodes it; nothing where they are not.
#[verifier::external_body]
fn utf8_text(bytes: Vec<u8>) -> (text: Option<String>)
    ensures
        match text {
            Some(s) => valid_utf8(bytes@) && s@ == decode_utf8(bytes@),
            None => !valid_utf8(bytes@),
        },
{
    String::from_utf8(bytes).ok()
}

/// The error that reports a fault.
fn fault_error(fault: LoadFault) -> (e: CoreWarError)
    ensures
        reports(e, fault),
{
    let mut message = String::new();
    match fault {
        LoadFault::Truncated => {
            message.append("Champion file is truncated");
        },
        LoadFault::BadMagic { magic } => {
            message.append("Invalid magic number: expected 0xEA83F3, got 0x");
            message.append(hex_upper(magic as u64, 1).as_str());
        },
        LoadFault::BadText => {
            message.append("Invalid UTF-8 in string");
        },
        LoadFault::BadPadding => {
            message.append("Header padding is not zero");
        },
        LoadFault::TooLarge { size } => {
            message.append("Code size ");
            message.append(decimal(size as i128).as_str());
            message.append(" exceeds memory size ");
            message.append(decimal(MEMORY_SIZE as i128).as_str());
        },
        LoadFault::BadId { id } => {
            message.append("Invalid champion ID: ");
            message.append(decimal(id as i128).as_str());
            message.append(" (must be 1-4)");
        },
        LoadFault::BadAddress { address } => {
            message.append("Load address ");
            message.append(decimal(address as i128).as_str());
            message.append(" is outside memory bounds (");
            message.append(decimal(MEMORY_SIZE as i128).as_str());
            message.append(")");
        },
        LoadFault::NoChampions => {
            message.append("No champion files provided");
        },
        LoadFault::TooMany { count } => {
            message.append("Too many champions: ");
            message.append(decimal(count as i128).as_str());
            message.append(" (maximum is 4)");
        },
        LoadFault::AddressCount => {
            message.append("Number of custom addresses must match number of champion files");
        },
        LoadFault::Overlap => {
            message.append("Champions overlap in memory");
        },
        LoadFault::BadField => {
            message.append("Name and comment take at most 128 bytes and hold no NUL");
        },
    }
    assert(message@ =~= fault_text(fault));
    match fault {
        LoadFault::BadMagic { .. } | LoadFault::BadPadding | LoadFault::TooLarge { .. } => {
            CoreWarError::InvalidHeader { message }
        },
        _ => CoreWarError::champion(message),
    }
}

/// A text in its field of `len` bytes: the text, then NUL up to the end.
pub open spec fn padded(text: Seq<u8>, len: int) -> Seq<u8> {
    Seq::new(
        len as nat,
        |i: int|
            if i < text.len() {
                text[i]
            } else {
                0u8
            },
    )
}

/// The four bytes of a big-endian word.
pub open spec fn word_bytes(value: int) -> Seq<u8> {
    seq![word_byte(value, 0), word_byte(value, 1), word_byte(value, 2), word_byte(value, 3)]
}

/// Whether a text fits a field: it is no longer than the field and holds no
/// NUL.
pub open spec fn fits_field(text: Seq<u8>) -> bool {
    text.len() <= TEXT_LENGTH && forall|i: int| 0 <= i < text.len() ==> text[i] != 0
}

/// The bytes of the champion file with the given name, comment and code.
pub open spec fn encoded(name: Seq<u8>, comment: Seq<u8>, code: Seq<u8>) -> Seq<u8> {
    word_bytes(COR_MAGIC as int) + padded(name, TEXT_LENGTH as int) + word_bytes(0) + word_bytes(
        code.len() as int,
    ) + padded(comment, TEXT_LENGTH as int) + word_bytes(0) + code
}

/// Why a champion cannot be written as a file, if it cannot: its name or
/// its comment does not fit its field, or its code is larger than the arena.
pub open spec fn encode_fault(name: Seq<u8>, comment: Seq<u8>, code: Seq<u8>) -> Option<LoadFault> {
    if !fits_field(name) || !fits_field(comment) {
        Some(LoadFault::BadField)
    } else if code.len() > MEMORY_SIZE {
        Some(LoadFault::TooLarge { size: code.len() as u32 })
    } else {
        None
    }
}

/// In a field, the text ends where the padding starts.
proof fn lemma_text_end(text: Seq<u8>, from: int)
    requires
        fits_field(text),
        0 <= from <= text.len(),
    ensures
        text_end(padded(text, TEXT_LENGTH as int), from) == text.len(),
    decreases text.len() - from,
{
    let field = padded(text, TEXT_LENGTH as int);
    if from < text.len() {
        assert(field[from] == text[from]);
        lemma_text_end(text, from + 1);
    }
}

/// The loader reads back what was written: a champion file made of a name,
/// a comment and code, each of which fits, gives that name, that comment and
/// that code when it is loaded under any admissible id and address.
pub proof fn lemma_load_round_trip(
    name: Seq<char>,
    comment: Seq<char>,
    code: Seq<u8>,
    strict: bool,
    id: u8,
    address: Option<usize>,
)
    requires
        fits_field(encode_utf8(name)),
        fits_field(encode_utf8(comment)),
        code.len() <= MEMORY_SIZE,
        1 <= id <= 4,
        address matches Some(a) ==> a < MEMORY_SIZE,
    ensures
        parse_header_bytes(encoded(encode_utf8(name), encode_utf8(comment), code), strict) == Ok::<
            HeaderView,
            LoadFault,
        >(HeaderView { magic: COR_MAGIC, name, code_size: code.len() as u32, comment }),
        load_bytes(encoded(encode_utf8(name), encode_utf8(comment), code), strict, id, address)
            == Ok::<Loaded, LoadFault>(
            Loaded {
                id,
                name,
                comment,
                code,
                load_address: match address {
                    Some(a) => a,
                    None => default_address(id),
                },
            },
        ),
{
    let n = encode_utf8(name);
    let c = encode_utf8(comment);
    let bytes = encoded(n, c, code);
    vstd::utf8::encode_utf8_valid_utf8(name);
    vstd::utf8::encode_utf8_valid_utf8(comment);
    vstd::utf8::encode_utf8_decode_utf8(name);
    vstd::utf8::encode_utf8_decode_utf8(comment);
    lemma_text_end(n, 0);
    lemma_text_end(c, 0);
    assert(bytes.len() == 272 + code.len());
    assert(bytes.subrange(4, 132) =~= padded(n, TEXT_LENGTH as int));
    assert(bytes.subrange(140, 268) =~= padded(c, TEXT_LENGTH as int));
    assert(text_bytes(bytes, 4, 128) =~= n);
    assert(text_bytes(bytes, 140, 128) =~= c);
    assert(word_at(bytes, 0) == COR_MAGIC);
    assert(word_at(bytes, 132) == 0);
    assert(word_at(bytes, 136) == code.len());
    assert(bytes.subrange(272, 272 + code.len() as int) =~= code);
}

/// The address at which champion `index` of `count` is loaded: the one
/// given for it, or its place in an even spread round the arena.
pub open spec fn address_of(addresses: Option<Seq<usize>>, count: int, index: int) -> usize {
    match addresses {
        Some(a) => a[index],
        None => (index * (MEMORY_SIZE as int / count)) as usize,
    }
}

/// What file `index` gives: champion `index + 1` at its address.
pub open spec fn loaded_at(
    files: Seq<Vec<u8>>,
    strict: bool,
    addresses: Option<Seq<usize>>,
    index: int,
) -> Result<Loaded, LoadFault> {
    load_bytes(
        files[index]@,
        strict,
        (index + 1) as u8,
        Some(address_of(addresses, files.len() as int, index)),
    )
}

/// The fault of the first file from `from` on that cannot be loaded, if
/// there is one.
pub open spec fn first_fault(
    files: Seq<Vec<u8>>,
    strict: bool,
    addresses: Option<Seq<usize>>,
    from: int,
) -> Option<LoadFault>
    decreases files.len() - from,
{
    if from >= files.len() {
        None
    } else {
        match loaded_at(files, strict, addresses, from) {
            Err(fault) => Some(fault),
            Ok(_) => first_fault(files, strict, addresses, from + 1),
        }
    }
}

/// Whether two of the champions that the files give overlap in the arena.
pub open spec fn files_overlap(files: Seq<Vec<u8>>, strict: bool, addresses: Option<Seq<usize>>)
    -> bool {
    exists|i: int, j: int|
        0 <= i < j < files.len() && clashing(
            (#[trigger] loaded_at(files, strict, addresses, i))->Ok_0.load_address as int,
            loaded_at(files, strict, addresses, i)->Ok_0.code.len() as int,
            (#[trigger] loaded_at(files, strict, addresses, j))->Ok_0.load_address as int,
            loaded_at(files, strict, addresses, j)->Ok_0.code.len() as int,
        )
}

/// Why the files cannot be loaded together, if they cannot: there are none
/// or too many, the addresses do not match them in number, one of them
/// cannot be loaded, or two of them overlap.
pub open spec fn load_all_fault(files: Seq<Vec<u8>>, strict: bool, addresses: Option<Seq<usize>>)
    -> Option<LoadFault> {
    if files.len() == 0 {
        Some(LoadFault::NoChampions)
    } else if files.len() > MAX_CHAMPIONS {
        Some(LoadFault::TooMany { count: files.len() as usize })
    } else if addresses matches Some(a) && a.len() != files.len() {
        Some(LoadFault::AddressCount)
    } else if first_fault(files, strict, addresses, 0) is Some {
        first_fault(files, strict, addresses, 0)
    } else if files_overlap(files, strict, addresses) {
        Some(LoadFault::Overlap)
    } else {
        None
    }
}

/// Whether the champions are what the files give, in order.
pub open spec fn all_loaded(
    champions: Seq<Champion>,
    files: Seq<Vec<u8>>,
    strict: bool,
    addresses: Option<Seq<usize>>,
) -> bool {
    &&& champions.len() == files.len()
    &&& forall|i: int|
        0 <= i < files.len() ==> (#[trigger] loaded_at(files, strict, addresses, i) matches Ok(l)
            && is_loaded(champions[i], l))
}

/// The addresses as a sequence, where there are any.
pub open spec fn addresses_view(addresses: Option<&[usize]>) -> Option<Seq<usize>> {
    match addresses {
        Some(a) => Some(a@),
        None => None,
    }
}

/// The champion loader.
#[derive(Debug, Clone, Copy)]
pub struct ChampionLoader {
    /// Whether a header whose code is larger than the arena is refused as
    /// soon as it is read.
    pub strict_validation: bool,
}

impl ChampionLoader {
    /// A loader.
    pub fn new(strict_validation: bool) -> (loader: Self)
        ensures
            loader.strict_validation == strict_validation,
    {
        ChampionLoader { strict_validation }
    }

    /// The big-endian word at `at`, if the bytes reach that far.
    fn read_u32_be(&self, bytes: &[u8], at: usize) -> (r: Result<u32, CoreWarError>)
        requires
            at <= 1000,
        ensures
            at + 4 <= bytes@.len() ==> r == Ok::<u32, CoreWarError>(word_at(bytes@, at as int)),
            at + 4 > bytes@.len() ==> (r matches Err(e) && reports(e, LoadFault::Truncated)),
    {
        if bytes.len() < at + 4 {
            return Err(fault_error(LoadFault::Truncated));
        }
        let b0 = bytes[at] as u32;
        let b1 = bytes[at + 1] as u32;
        let b2 = bytes[at + 2] as u32;
        let b3 = bytes[at + 3] as u32;
        Ok(b0 * 0x100_0000 + b1 * 0x1_0000 + b2 * 0x100 + b3)
    }

    /// The text in the field of `max_length` bytes at `at`: the bytes before
    /// the first NUL, which must be UTF-8.
    fn read_string(&self, bytes: &[u8], at: usize, max_length: usize) -> (r: Result<
        String,
        CoreWarError,
    >)
        requires
            at <= 1000,
            max_length <= 1000,
        ensures
            at + max_length > bytes@.len() ==> (r matches Err(e) && reports(
                e,
                LoadFault::Truncated,
            )),
            at + max_length <= bytes@.len() && !valid_utf8(
                text_bytes(bytes@, at as int, max_length as int),
            ) ==> (r matches Err(e) && reports(e, LoadFault::BadText)),
            at + max_length <= bytes@.len() && valid_utf8(
                text_bytes(bytes@, at as int, max_length as int),
            ) ==> (r matches Ok(s) && s@ == decode_utf8(
                text_bytes(bytes@, at as int, max_length as int),
            )),
    {
        if bytes.len() < at + max_length {
            return Err(fault_error(LoadFault::Truncated));
        }
        let ghost field = bytes@.subrange(at as int, at + max_length);
        let mut text: Vec<u8> = Vec::new();
        let mut i: usize = 0;
        while i < max_length && bytes[at + i] != 0
            invariant
                i <= max_length,
                at <= 1000,
                max_length <= 1000,
                at + max_length <= bytes@.len(),
                field == bytes@.subrange(at as int, at + max_length),
                text@ == field.subrange(0, i as int),
                text_end(field, 0) == text_end(field, i as int),
            decreases max_length - i,
        {
            text.push(bytes[at + i]);
            assert(field[i as int] == bytes@[at + i]);
            assert(text@ =~= field.subrange(0, i + 1));
            i += 1;
        }
        assert(i < max_length ==> field[i as int] == bytes@[at + i]);
        assert(text_end(field, i as int) == i);
        match utf8_text(text) {
            Some(s) => Ok(s),
            None => Err(fault_error(LoadFault::BadText)),
        }
    }

    /// The code of a champion: the `code_size` bytes after the header.
    fn read_code(&self, bytes: &[u8], code_size: u32) -> (r: Result<Vec<u8>, CoreWarError>)
        ensures
            HEADER_LENGTH + code_size <= bytes@.len() ==> (r matches Ok(code) && code@
                == bytes@.subrange(HEADER_LENGTH as int, HEADER_LENGTH + code_size)),
            HEADER_LENGTH + code_size > bytes@.len() ==> (r matches Err(e) && reports(
                e,
                LoadFault::Truncated,
            )),
    {
        let size = code_size as usize;
        if bytes.len() < HEADER_LENGTH || bytes.len() - HEADER_LENGTH < size {
            return Err(fault_error(LoadFault::Truncated));
        }
        let mut code: Vec<u8> = Vec::new();
        let mut i: usize = 0;
        while i < size
            invariant
                i <= size,
                HEADER_LENGTH + size <= bytes@.len(),
                bytes@.len() <= usize::MAX,
                code@ == bytes@.subrange(HEADER_LENGTH as int, HEADER_LENGTH + i),
            decreases size - i,
        {
            code.push(bytes[HEADER_LENGTH + i]);
            assert(code@ =~= bytes@.subrange(HEADER_LENGTH as int, HEADER_LENGTH + i + 1));
            i += 1;
        }
        Ok(code)
    }

    /// Reads the header of a champion file from its bytes.
    pub fn parse_header(&self, bytes: &[u8]) -> (r: Result<ChampionHeader, CoreWarError>)
        ensures
            header_result(r, parse_header_bytes(bytes@, self.strict_validation)),
    {
        let magic = match self.read_u32_be(bytes, 0) {
            Ok(v) => v,
            Err(e) => {
                return Err(e);
            },
        };
        if magic != COR_MAGIC {
            return Err(fault_error(LoadFault::BadMagic { magic }));
        }
        let name = match self.read_string(bytes, 4, TEXT_LENGTH) {
            Ok(v) => v,
            Err(e) => {
                return Err(e);
            },
        };
        let padding = match self.read_u32_be(bytes, 132) {
            Ok(v) => v,
            Err(e) => {
                return Err(e);
            },
        };
        if padding != 0 {
            return Err(fault_error(LoadFault::BadPadding));
        }
        let code_size = match self.read_u32_be(bytes, 136) {
            Ok(v) => v,
            Err(e) => {
                return Err(e);
            },
        };
        if self.strict_validation && code_size > MEMORY_SIZE as u32 {
            return Err(fault_error(LoadFault::TooLarge { size: code_size }));
        }
        let comment = match self.read_string(bytes, 140, TEXT_LENGTH) {
            Ok(v) => v,
            Err(e) => {
                return Err(e);
            },
        };
        if bytes.len() < HEADER_LENGTH {
            return Err(fault_error(LoadFault::Truncated));
        }
        Ok(ChampionHeader { magic, name, code_size, comment })
    }

    /// The header of a champion file, without loading the champion.
    pub fn get_champion_info(&self, bytes: &[u8]) -> (r: Result<ChampionHeader, CoreWarError>)
        ensures
            header_result(r, parse_header_bytes(bytes@, self.strict_validation)),
    {
        self.parse_header(bytes)
    }

    /// Loads a champion from the bytes of its file, as champion
    /// `champion_id`, at `load_address` or, where none is given, at the
    /// place of its id in a spread of four.
    pub fn load_champion(&self, bytes: &[u8], champion_id: u8, load_address: Option<usize>) -> (r:
        Result<Champion, CoreWarError>)
        ensures
            champion_result(
                r,
                load_bytes(bytes@, self.strict_validation, champion_id, load_address),
            ),
    {
        if champion_id == 0 || champion_id > 4 {
            return Err(fault_error(LoadFault::BadId { id: champion_id }));
        }
        let header = match self.parse_header(bytes) {
            Ok(h) => h,
            Err(e) => {
                return Err(e);
            },
        };
        if header.code_size > MEMORY_SIZE as u32 {
            return Err(fault_error(LoadFault::TooLarge { size: header.code_size }));
        }
        let code = match self.read_code(bytes, header.code_size) {
            Ok(c) => c,
            Err(e) => {
                return Err(e);
            },
        };
        let final_load_address = match load_address {
            Some(addr) => {
                if addr >= MEMORY_SIZE {
                    return Err(fault_error(LoadFault::BadAddress { address: addr }));
                }
                addr
            },
            None => {
                let addresses = Memory::calculate_placement_addresses(4);
                addresses[(champion_id - 1) as usize]
            },
        };
        Ok(Champion::new(champion_id, header.name, header.comment, code, final_load_address))
    }

    /// Whether two ranges of cells, each from its start up to but without
    /// its end, share a cell of the ring.
    fn ranges_overlap(&self, start1: usize, end1: usize, start2: usize, end2: usize) -> (b: bool)
        requires
            start1 < MEMORY_SIZE,
            start2 < MEMORY_SIZE,
            start1 <= end1 <= start1 + MEMORY_SIZE,
            start2 <= end2 <= start2 + MEMORY_SIZE,
        ensures
            b == clashing(start1 as int, end1 - start1, start2 as int, end2 - start2),
    {
        if start1 == start2 {
            return true;
        }
        let len1 = end1 - start1;
        let len2 = end2 - start2;
        if len1 == 0 || len2 == 0 {
            assert(!overlapping(start1 as int, len1 as int, start2 as int, len2 as int));
            return false;
        }
        let ahead = (start2 + MEMORY_SIZE - start1) % MEMORY_SIZE;
        let behind = (start1 + MEMORY_SIZE - start2) % MEMORY_SIZE;
        assert(ahead == wrap(start2 - start1));
        assert(behind == wrap(start1 - start2));
        let b = ahead < len1 || behind < len2;
        proof {
            if ahead < len1 {
                assert(covers(start1 as int, len1 as int, start2 as int));
                assert(covers(start2 as int, len2 as int, start2 as int));
            } else if behind < len2 {
                assert(covers(start1 as int, len1 as int, start1 as int));
                assert(covers(start2 as int, len2 as int, start1 as int));
            } else {
                assert forall|j: int| 0 <= j < MEMORY_SIZE implies !(#[trigger] covers(
                    start1 as int,
                    len1 as int,
                    j,
                ) && covers(start2 as int, len2 as int, j)) by {
                    let a = wrap(j - start1);
                    let c = wrap(j - start2);
                    if a < len1 && c < len2 {
                        if a >= c {
                            assert(wrap(start2 - start1) == a - c);
                        } else {
                            assert(wrap(start1 - start2) == c - a);
                        }
                    }
                }
            }
        }
        b
    }

    /// Checks that no two champions overlap in the arena.
    fn validate_champion_placement(&self, champions: &Vec<Champion>) -> (r: Result<(), CoreWarError>)
        requires
            forall|i: int|
                0 <= i < champions@.len() ==> (#[trigger] champions@[i]).load_address < MEMORY_SIZE
                    && champions@[i].code@.len() <= MEMORY_SIZE,
        ensures
            !any_overlap(champions@) ==> r is Ok,
            any_overlap(champions@) ==> (r matches Err(e) && reports(e, LoadFault::Overlap)),
    {
        let n = champions.len();
        let mut i: usize = 0;
        while i < n
            invariant
                i <= n,
                n == champions@.len(),
                forall|k: int|
                    0 <= k < champions@.len() ==> (#[trigger] champions@[k]).load_address
                        < MEMORY_SIZE && champions@[k].code@.len() <= MEMORY_SIZE,
                forall|a: int, b: int|
                    0 <= a < i && a < b < n ==> !#[trigger] clashing(
                        champions@[a].load_address as int,
                        champions@[a].code@.len() as int,
                        #[trigger] champions@[b].load_address as int,
                        champions@[b].code@.len() as int,
                    ),
            decreases n - i,
        {
            let mut j: usize = i + 1;
            while j < n
                invariant
                    i < j <= n,
                    n == champions@.len(),
                    forall|k: int|
                        0 <= k < champions@.len() ==> (#[trigger] champions@[k]).load_address
                            < MEMORY_SIZE && champions@[k].code@.len() <= MEMORY_SIZE,
                    forall|a: int, b: int|
                        0 <= a < i && a < b < n ==> !#[trigger] clashing(
                            champions@[a].load_address as int,
                            champions@[a].code@.len() as int,
                            #[trigger] champions@[b].load_address as int,
                            champions@[b].code@.len() as int,
                        ),
                    forall|b: int|
                        i < b < j ==> !clashing(
                            champions@[i as int].load_address as int,
                            champions@[i as int].code@.len() as int,
                            (#[trigger] champions@[b]).load_address as int,
                            champions@[b].code@.len() as int,
                        ),
                decreases n - j,
            {
                let start1 = champions[i].load_address;
                let end1 = start1 + champions[i].code_size();
                let start2 = champions[j].load_address;
                let end2 = start2 + champions[j].code_size();
                if self.ranges_overlap(start1, end1, start2, end2) {
                    return Err(fault_error(LoadFault::Overlap));
                }
                j += 1;
            }
            i += 1;
        }
        Ok(())
    }

    /// Loads the champions of a battle from the bytes of their files. The
    /// champions get the ids 1, 2, ... in order, and the addresses given or,
    /// where none are given, an even spread round the arena. No two of them
    /// may overlap.
    pub fn load_champions(&self, files: &[Vec<u8>], custom_addresses: Option<&[usize]>) -> (r:
        Result<Vec<Champion>, CoreWarError>)
        ensures
            match load_all_fault(files@, self.strict_validation, addresses_view(custom_addresses)) {
                Some(fault) => r matches Err(e) && reports(e, fault),
                None => r matches Ok(champions) && all_loaded(
                    champions@,
                    files@,
                    self.strict_validation,
                    addresses_view(custom_addresses),
                ),
            },
    {
        let n = files.len();
        if n == 0 {
            return Err(fault_error(LoadFault::NoChampions));
        }
        if n > MAX_CHAMPIONS {
            return Err(fault_error(LoadFault::TooMany { count: n }));
        }
        let spread = Memory::calculate_placement_addresses(n);
        match custom_addresses {
            Some(addrs) => {
                if addrs.len() != n {
                    return Err(fault_error(LoadFault::AddressCount));
                }
            },
            None => {},
        }
        let ghost given = addresses_view(custom_addresses);
        let strict = self.strict_validation;
        let mut champions: Vec<Champion> = Vec::new();
        let mut i: usize = 0;
        while i < n
            invariant
                i <= n,
                n == files@.len(),
                0 < n <= MAX_CHAMPIONS,
                strict == self.strict_validation,
                given == addresses_view(custom_addresses),
                custom_addresses matches Some(a) ==> a@.len() == n,
                spread@.len() == n,
                forall|k: int| 0 <= k < n ==> #[trigger] spread@[k] == k * (MEMORY_SIZE / n),
                champions@.len() == i,
                first_fault(files@, strict, given, 0) == first_fault(files@, strict, given, i as int),
                forall|k: int|
                    0 <= k < i ==> (#[trigger] loaded_at(files@, strict, given, k) matches Ok(l)
                        && is_loaded(champions@[k], l)),
            decreases n - i,
        {
            let champion_id = (i + 1) as u8;
            let load_address = match custom_addresses {
                Some(addrs) => addrs[i],
                None => spread[i],
            };
            assert(load_address == address_of(given, n as int, i as int));
            let champion = match self.load_champion(
                files[i].as_slice(),
                champion_id,
                Some(load_address),
            ) {
                Ok(c) => c,
                Err(e) => {
                    return Err(e);
                },
            };
            champions.push(champion);
            i += 1;
        }
        assert(first_fault(files@, strict, given, 0) is None);
        proof {
            assert forall|k: int| 0 <= k < champions@.len() implies (#[trigger] champions@[k]).load_address
                < MEMORY_SIZE && champions@[k].code@.len() <= MEMORY_SIZE by {
                assert(loaded_at(files@, strict, given, k) is Ok);
            }
            if any_overlap(champions@) {
                let (a, b) = choose|a: int, b: int|
                    0 <= a < b < champions@.len() && #[trigger] clashing(
                        champions@[a].load_address as int,
                        champions@[a].code@.len() as int,
                        #[trigger] champions@[b].load_address as int,
                        champions@[b].code@.len() as int,
                    );
                assert(loaded_at(files@, strict, given, a) is Ok);
                assert(loaded_at(files@, strict, given, b) is Ok);
                assert(files_overlap(files@, strict, given));
            }
            if files_overlap(files@, strict, given) {
                let (a, b) = choose|a: int, b: int|
                    0 <= a < b < files@.len() && clashing(
                        (#[trigger] loaded_at(files@, strict, given, a))->Ok_0.load_address as int,
                        loaded_at(files@, strict, given, a)->Ok_0.code.len() as int,
                        (#[trigger] loaded_at(files@, strict, given, b))->Ok_0.load_address as int,
                        loaded_at(files@, strict, given, b)->Ok_0.code.len() as int,
                    );
                assert(is_loaded(champions@[a], loaded_at(files@, strict, given, a)->Ok_0));
                assert(is_loaded(champions@[b], loaded_at(files@, strict, given, b)->Ok_0));
                assert(clashing(
                    champions@[a].load_address as int,
                    champions@[a].code@.len() as int,
                    champions@[b].load_address as int,
                    champions@[b].code@.len() as int,
                ));
                assert(any_overlap(champions@));
            }
        }
        match self.validate_champion_placement(&champions) {
            Ok(()) => {},
            Err(e) => {
                return Err(e);
            },
        }
        Ok(champions)
    }
}

/// Appends a text in its field: the text, then NUL up to the field's end.
fn push_field(file: &mut Vec<u8>, text: &[u8])
    requires
        text@.len() <= TEXT_LENGTH,
    ensures
        final(file)@ == old(file)@ + padded(text@, TEXT_LENGTH as int),
{
    let ghost start = file@;
    let mut i: usize = 0;
    while i < TEXT_LENGTH
        invariant
            i <= TEXT_LENGTH,
            text@.len() <= TEXT_LENGTH,
            file@ == start + padded(text@, TEXT_LENGTH as int).subrange(0, i as int),
        decreases TEXT_LENGTH - i,
    {
        let b = if i < text.len() {
            text[i]
        } else {
            0
        };
        file.push(b);
        assert(file@ =~= start + padded(text@, TEXT_LENGTH as int).subrange(0, i + 1));
        i += 1;
    }
    assert(padded(text@, TEXT_LENGTH as int).subrange(0, TEXT_LENGTH as int) =~= padded(
        text@,
        TEXT_LENGTH as int,
    ));
}

/// Appends a big-endian word.
fn push_word(file: &mut Vec<u8>, value: u32)
    ensures
        final(file)@ == old(file)@ + word_bytes(value as int),
{
    let ghost start = file@;
    file.push((value / 0x100_0000) as u8);
    file.push(((value / 0x1_0000) % 0x100) as u8);
    file.push(((value / 0x100) % 0x100) as u8);
    file.push((value % 0x100) as u8);
    assert(file@ =~= start + word_bytes(value as int));
}

/// Whether a text is no longer than a field and holds no NUL.
fn check_field(text: &[u8]) -> (b: bool)
    ensures
        b == fits_field(text@),
{
    if text.len() > TEXT_LENGTH {
        return false;
    }
    let mut i: usize = 0;
    while i < text.len()
        invariant
            i <= text@.len(),
            forall|j: int| 0 <= j < i ==> text@[j] != 0,
        decreases text@.len() - i,
    {
        if text[i] == 0 {
            return false;
        }
        i += 1;
    }
    true
}

/// The bytes of the champion file with the given name, comment and code.
/// A name or a comment of more than 128 bytes or with a NUL in it, and code
/// larger than the arena, are refused.
pub fn encode_champion(name: &str, comment: &str, code: &[u8]) -> (r: Result<Vec<u8>, CoreWarError>)
    ensures
        match encode_fault(encode_utf8(name@), encode_utf8(comment@), code@) {
            Some(fault) => r matches Err(e) && reports(e, fault),
            None => r matches Ok(file) && file@ == encoded(
                encode_utf8(name@),
                encode_utf8(comment@),
                code@,
            ),
        },
{
    let name_bytes = name.as_bytes();
    let comment_bytes = comment.as_bytes();
    if !check_field(name_bytes) || !check_field(comment_bytes) {
        return Err(fault_error(LoadFault::BadField));
    }
    if code.len() > MEMORY_SIZE {
        return Err(fault_error(LoadFault::TooLarge { size: code.len() as u32 }));
    }
    let mut file: Vec<u8> = Vec::new();
    push_word(&mut file, COR_MAGIC);
    push_field(&mut file, name_bytes);
    push_word(&mut file, 0);
    push_word(&mut file, code.len() as u32);
    push_field(&mut file, comment_bytes);
    push_word(&mut file, 0);
    let ghost head = file@;
    let mut i: usize = 0;
    while i < code.len()
        invariant
            i <= code@.len(),
            file@ == head + code@.subrange(0, i as int),
        decreases code@.len() - i,
    {
        file.push(code[i]);
        assert(file@ =~= head + code@.subrange(0, i + 1));
        i += 1;
    }
    assert(code@.subrange(0, code@.len() as int) =~= code@);
    assert(file@ =~= encoded(encode_utf8(name@), encode_utf8(comment@), code@));
    Ok(file)
}

impl Default for ChampionLoader {
    fn default() -> (loader: Self)
        ensures
            loader.strict_validation,
    {
        ChampionLoader::new(true)
    }
}

} // verus!
