use vstd::prelude::*;
use vstd::slice::slice_subrange;
use vstd::string::StringSliceAdditionalSpecFns;
use vstd::utf8::{decode_utf8, encode_utf8, valid_utf8};

verus! {

broadcast use {vstd::utf8::encode_utf8_valid_utf8, vstd::utf8::encode_utf8_decode_utf8};

/// A control message from the facade to the audio backend.
#[derive(Debug, PartialEq, Eq)]
/// A `loops` of -1 repeats forever, and N >= 0 repeats N times (0 plays once).
/// The music controls carry no filename: the mixer applies them to its one
/// current track, whichever file it came from.
pub enum Command {
    LoadMusic { filename: String },
    PlayMusic { filename: String, loops: i32 },
    StopMusic,
    PauseMusic,
    ResumeMusic,
    RewindMusic,
    LoadSound { filename: String },
    PlaySound { filename: String, loops: i32 },
}

/// The mathematical value of a command, with each filename as its characters.
pub enum CommandModel {
    LoadMusic { filename: Seq<char> },
    PlayMusic { filename: Seq<char>, loops: i32 },
    StopMusic,
    PauseMusic,
    ResumeMusic,
    RewindMusic,
    LoadSound { filename: Seq<char> },
    PlaySound { filename: Seq<char>, loops: i32 },
}

/// Why a packet could not be read as a command.
#[derive(Copy, Clone, Debug, PartialEq, Eq, Structural)]
pub enum DecodeError {
    /// The packet holds no byte at all.
    Empty,
    /// The first byte names no command.
    UnknownTag { tag: u8 },
    /// The packet ends inside a field.
    Truncated,
    /// A filename is not valid UTF-8.
    InvalidText,
    /// Bytes follow the last field of the command.
    TrailingBytes,
}

impl View for Command {
    type V = CommandModel;

    open spec fn view(&self) -> CommandModel {
        match self {
            Command::LoadMusic { filename } => CommandModel::LoadMusic { filename: filename@ },
            Command::PlayMusic { filename, loops } => CommandModel::PlayMusic {
                filename: filename@,
                loops: *loops,
            },
            Command::StopMusic => CommandModel::StopMusic,
            Command::PauseMusic => CommandModel::PauseMusic,
            Command::ResumeMusic => CommandModel::ResumeMusic,
            Command::RewindMusic => CommandModel::RewindMusic,
            Command::LoadSound { filename } => CommandModel::LoadSound { filename: filename@ },
            Command::PlaySound { filename, loops } => CommandModel::PlaySound {
                filename: filename@,
                loops: *loops,
            },
        }
    }
}

/// The first byte of each command's packet.
pub const TAG_LOAD_MUSIC: u8 = 0;
pub const TAG_PLAY_MUSIC: u8 = 1;
pub const TAG_STOP_MUSIC: u8 = 2;
pub const TAG_PAUSE_MUSIC: u8 = 3;
pub const TAG_RESUME_MUSIC: u8 = 4;
pub const TAG_REWIND_MUSIC: u8 = 5;
pub const TAG_LOAD_SOUND: u8 = 6;
pub const TAG_PLAY_SOUND: u8 = 7;

/// Bytes of the length prefix in front of a filename.
pub const LEN_BYTES: usize = 8;

/// Bytes of a loop count.
pub const LOOPS_BYTES: usize = 4;

/// `256` to the power `k`.
pub open spec fn pow256(k: nat) -> nat
    decreases k,
{
    if k == 0 {
        1
    } else {
        256 * pow256((k - 1) as nat)
    }
}

/// The `k` low bytes of `v`, least significant first.
pub open spec fn le_bytes(v: nat, k: nat) -> Seq<u8>
    decreases k,
{
    if k == 0 {
        Seq::empty()
    } else {
        seq![(v % 256) as u8] + le_bytes(v / 256, (k - 1) as nat)
    }
}

/// The number whose bytes, least significant first, are `b`.
pub open spec fn le_value(b: Seq<u8>) -> nat
    decreases b.len(),
{
    if b.len() == 0 {
        0
    } else {
        b[0] as nat + 256 * le_value(b.drop_first())
    }
}

/// A loop count as an unsigned 32-bit word (two's complement).
pub open spec fn loops_word(l: i32) -> nat {
    if l < 0 {
        (l + 0x1_0000_0000) as nat
    } else {
        l as nat
    }
}

/// The loop count that an unsigned 32-bit word stands for.
pub open spec fn word_loops(w: nat) -> i32 {
    if w >= 0x8000_0000 {
        (w - 0x1_0000_0000) as i32
    } else {
        w as i32
    }
}

/// A filename on the wire: its UTF-8 length, then its UTF-8 bytes.
pub open spec fn text_field(f: Seq<char>) -> Seq<u8> {
    le_bytes(encode_utf8(f).len(), LEN_BYTES as nat) + encode_utf8(f)
}

/// A loop count on the wire: its 32-bit word, least significant byte first.
pub open spec fn loops_field(l: i32) -> Seq<u8> {
    le_bytes(loops_word(l), LOOPS_BYTES as nat)
}

/// The packet of a command: a tag byte, then the command's fields.
pub open spec fn encode_spec(c: CommandModel) -> Seq<u8> {
    match c {
        CommandModel::LoadMusic { filename } => seq![TAG_LOAD_MUSIC] + text_field(filename),
        CommandModel::PlayMusic { filename, loops } => seq![TAG_PLAY_MUSIC] + text_field(filename)
            + loops_field(loops),
        CommandModel::StopMusic => seq![TAG_STOP_MUSIC],
        CommandModel::PauseMusic => seq![TAG_PAUSE_MUSIC],
        CommandModel::ResumeMusic => seq![TAG_RESUME_MUSIC],
        CommandModel::RewindMusic => seq![TAG_REWIND_MUSIC],
        CommandModel::LoadSound { filename } => seq![TAG_LOAD_SOUND] + text_field(filename),
        CommandModel::PlaySound { filename, loops } => seq![TAG_PLAY_SOUND] + text_field(filename)
            + loops_field(loops),
    }
}

/// Every filename of the command has a UTF-8 length that its prefix can hold.
pub open spec fn encodable(c: CommandModel) -> bool {
    match c {
        CommandModel::LoadMusic { filename } => encode_utf8(filename).len() <= u64::MAX,
        CommandModel::PlayMusic { filename, .. } => encode_utf8(filename).len() <= u64::MAX,
        CommandModel::LoadSound { filename } => encode_utf8(filename).len() <= u64::MAX,
        CommandModel::PlaySound { filename, .. } => encode_utf8(filename).len() <= u64::MAX,
        _ => true,
    }
}

/// Reads the filename that starts at `at`: the text and the position after it.
pub open spec fn decode_text(b: Seq<u8>, at: int) -> Result<(Seq<char>, int), DecodeError> {
    if b.len() < at + LEN_BYTES {
        Err(DecodeError::Truncated)
    } else {
        let n = le_value(b.subrange(at, at + LEN_BYTES));
        let start = at + LEN_BYTES;
        if b.len() - start < n {
            Err(DecodeError::Truncated)
        } else if !valid_utf8(b.subrange(start, start + n)) {
            Err(DecodeError::InvalidText)
        } else {
            Ok((decode_utf8(b.subrange(start, start + n)), start + n))
        }
    }
}

/// Reads a packet made of a filename alone.
pub open spec fn decode_named(b: Seq<u8>) -> Result<Seq<char>, DecodeError> {
    match decode_text(b, 1) {
        Err(e) => Err(e),
        Ok((f, end)) => if end < b.len() {
            Err(DecodeError::TrailingBytes)
        } else {
            Ok(f)
        },
    }
}

/// Reads a packet made of a filename and a loop count.
pub open spec fn decode_named_loops(b: Seq<u8>) -> Result<(Seq<char>, i32), DecodeError> {
    match decode_text(b, 1) {
        Err(e) => Err(e),
        Ok((f, end)) => if b.len() < end + LOOPS_BYTES {
            Err(DecodeError::Truncated)
        } else if b.len() > end + LOOPS_BYTES {
            Err(DecodeError::TrailingBytes)
        } else {
            Ok((f, word_loops(le_value(b.subrange(end, end + LOOPS_BYTES)))))
        },
    }
}

/// Reads a packet made of its tag alone.
pub open spec fn decode_bare(b: Seq<u8>, c: CommandModel) -> Result<CommandModel, DecodeError> {
    if b.len() > 1 {
        Err(DecodeError::TrailingBytes)
    } else {
        Ok(c)
    }
}

/// The command that a packet holds, or why it holds none.
pub open spec fn decode_spec(b: Seq<u8>) -> Result<CommandModel, DecodeError> {
    if b.len() == 0 {
        Err(DecodeError::Empty)
    } else {
        let tag = b[0];
        if tag == TAG_LOAD_MUSIC {
            match decode_named(b) {
                Err(e) => Err(e),
                Ok(f) => Ok(CommandModel::LoadMusic { filename: f }),
            }
        } else if tag == TAG_PLAY_MUSIC {
            match decode_named_loops(b) {
                Err(e) => Err(e),
                Ok((f, l)) => Ok(CommandModel::PlayMusic { filename: f, loops: l }),
            }
        } else if tag == TAG_STOP_MUSIC {
            decode_bare(b, CommandModel::StopMusic)
        } else if tag == TAG_PAUSE_MUSIC {
            decode_bare(b, CommandModel::PauseMusic)
        } else if tag == TAG_RESUME_MUSIC {
            decode_bare(b, CommandModel::ResumeMusic)
        } else if tag == TAG_REWIND_MUSIC {
            decode_bare(b, CommandModel::RewindMusic)
        } else if tag == TAG_LOAD_SOUND {
            match decode_named(b) {
                Err(e) => Err(e),
                Ok(f) => Ok(CommandModel::LoadSound { filename: f }),
            }
        } else if tag == TAG_PLAY_SOUND {
            match decode_named_loops(b) {
                Err(e) => Err(e),
                Ok((f, l)) => Ok(CommandModel::PlaySound { filename: f, loops: l }),
            }
        } else {
            Err(DecodeError::UnknownTag { tag })
        }
    }
}

/// The model of a decoding result.
pub open spec fn decoded_view(r: Result<Command, DecodeError>) -> Result<CommandModel, DecodeError> {
    match r {
        Ok(c) => Ok(c@),
        Err(e) => Err(e),
    }
}


/// A number read from `k` bytes, least significant first, is below `256^k`.
pub proof fn lemma_le_value_bound(b: Seq<u8>)
    ensures
        le_value(b) < pow256(b.len()),
    decreases b.len(),
{
    if b.len() > 0 {
        let rest = b.drop_first();
        lemma_le_value_bound(rest);
        let x = b[0] as nat;
        let r = le_value(rest);
        let p = pow256(rest.len());
        assert(x + 256 * r < 256 * p) by (nonlinear_arith)
            requires
                x < 256,
                r < p,
        ;
    }
}

/// Writing `v` in `k` bytes and reading it back gives `v`, when it fits.
pub proof fn lemma_le_round_trip(v: nat, k: nat)
    requires
        v < pow256(k),
    ensures
        le_bytes(v, k).len() == k,
        le_value(le_bytes(v, k)) == v,
    decreases k,
{
    if k > 0 {
        let q = v / 256;
        let p = pow256((k - 1) as nat);
        assert(q < p) by (nonlinear_arith)
            requires
                v < 256 * p,
                q == v / 256,
        ;
        lemma_le_round_trip(q, (k - 1) as nat);
        let b = le_bytes(v, k);
        assert(b.drop_first() =~= le_bytes(q, (k - 1) as nat));
        assert(v % 256 + 256 * q == v) by (nonlinear_arith)
            requires
                q == v / 256,
        ;
    }
}

proof fn lemma_pow256_facts()
    ensures
        pow256(4) == 0x1_0000_0000,
        pow256(8) == 0x1_0000_0000_0000_0000,
{
    reveal_with_fuel(pow256, 9);
}

proof fn lemma_pow256_mono(a: nat, b: nat)
    requires
        a <= b,
    ensures
        pow256(a) <= pow256(b),
    decreases b,
{
    if a < b {
        lemma_pow256_mono(a, (b - 1) as nat);
    }
}

/// Appends the `k` low bytes of `v`, least significant first.
fn write_le(out: &mut Vec<u8>, v: u64, k: usize)
    ensures
        final(out)@ == old(out)@ + le_bytes(v as nat, k as nat),
{
    let mut x: u64 = v;
    let mut i: usize = 0;
    while i < k
        invariant
            i <= k,
            out@ + le_bytes(x as nat, (k - i) as nat) == old(out)@ + le_bytes(v as nat, k as nat),
        decreases k - i,
    {
        let ghost before = out@;
        out.push((x % 256) as u8);
        assert(before + le_bytes(x as nat, (k - i) as nat) =~= out@ + le_bytes(
            (x / 256) as nat,
            (k - i - 1) as nat,
        ));
        x = x / 256;
        i = i + 1;
    }
}

/// Reads the number held in `k` bytes from `at` on, least significant first.
fn read_le(b: &[u8], at: usize, k: usize) -> (r: u64)
    requires
        k <= 8,
        at + k <= b@.len(),
    ensures
        r as nat == le_value(b@.subrange(at as int, at + k)),
{
    let len: usize = b.len();
    let end: usize = at + k;
    let mut acc: u64 = 0;
    let mut j: usize = end;
    proof {
        assert(b@.subrange(end as int, end as int) =~= Seq::<u8>::empty());
    }
    while j > at
        invariant
            at <= j <= end,
            end == at + k,
            k <= 8,
            end <= b@.len(),
            acc as nat == le_value(b@.subrange(j as int, end as int)),
        decreases j,
    {
        let ghost tail = b@.subrange(j as int, end as int);
        j = j - 1;
        let ghost longer = b@.subrange(j as int, end as int);
        proof {
            assert(longer.drop_first() =~= tail);
            lemma_le_value_bound(longer);
            lemma_pow256_mono(longer.len(), 8);
            lemma_pow256_facts();
        }
        acc = (b[j] as u64) + 256 * acc;
    }
    acc
}

/// Appends a filename as its length prefix and its UTF-8 bytes.
fn write_text(out: &mut Vec<u8>, s: &String)
    ensures
        final(out)@ == old(out)@ + text_field(s@),
        encode_utf8(s@).len() <= u64::MAX,
{
    let bytes = s.as_str().as_bytes();
    let n = bytes.len();
    write_le(out, n as u64, LEN_BYTES);
    let ghost mid = out@;
    let mut i: usize = 0;
    while i < n
        invariant
            i <= n,
            n == bytes@.len(),
            bytes@ == encode_utf8(s@),
            out@ == mid + bytes@.subrange(0, i as int),
        decreases n - i,
    {
        out.push(bytes[i]);
        assert(out@ =~= mid + bytes@.subrange(0, i + 1));
        i = i + 1;
    }
    assert(bytes@.subrange(0, n as int) =~= bytes@);
    assert(out@ =~= old(out)@ + text_field(s@));
}

/// The packet of a command.
pub fn encode(c: &Command) -> (r: Vec<u8>)
    ensures
        r@ == encode_spec(c@),
        encodable(c@),
{
    let mut out: Vec<u8> = Vec::new();
    match c {
        Command::LoadMusic { filename } => {
            out.push(TAG_LOAD_MUSIC);
            write_text(&mut out, filename);
        },
        Command::PlayMusic { filename, loops } => {
            out.push(TAG_PLAY_MUSIC);
            write_text(&mut out, filename);
            write_le(&mut out, loops_u32(*loops) as u64, LOOPS_BYTES);
        },
        Command::StopMusic => out.push(TAG_STOP_MUSIC),
        Command::PauseMusic => out.push(TAG_PAUSE_MUSIC),
        Command::ResumeMusic => out.push(TAG_RESUME_MUSIC),
        Command::RewindMusic => out.push(TAG_REWIND_MUSIC),
        Command::LoadSound { filename } => {
            out.push(TAG_LOAD_SOUND);
            write_text(&mut out, filename);
        },
        Command::PlaySound { filename, loops } => {
            out.push(TAG_PLAY_SOUND);
            write_text(&mut out, filename);
            write_le(&mut out, loops_u32(*loops) as u64, LOOPS_BYTES);
        },
    }
    proof {
        assert(out@ =~= encode_spec(c@));
    }
    out
}


fn loops_u32(l: i32) -> (r: u32)
    ensures
        r as nat == loops_word(l),
{
    if l < 0 {
        (l as i64 + 0x1_0000_0000i64) as u32
    } else {
        l as u32
    }
}

fn u32_loops(w: u32) -> (r: i32)
    ensures
        r == word_loops(w as nat),
{
    if w >= 0x8000_0000 {
        (w as i64 - 0x1_0000_0000i64) as i32
    } else {
        w as i32
    }
}


/// Relies on `std::str::from_utf8`: it succeeds exactly on valid UTF-8, and the
/// text it returns is made of those very bytes.
#[verifier::external_body]
fn utf8_text(b: &[u8]) -> (r: Option<&str>)
    ensures
        r.is_some() == valid_utf8(b@),
        r.is_some() ==> r.unwrap().spec_bytes() == b@,
{
    match std::str::from_utf8(b) {
        Ok(s) => Some(s),
        Err(_) => None,
    }
}

/// Reads the filename that starts at `at`, and the position after it.
fn read_text(b: &[u8], at: usize) -> (r: Result<(String, usize), DecodeError>)
    requires
        at <= b@.len(),
    ensures
        match r {
            Ok((s, end)) => decode_text(b@, at as int) == Ok::<(Seq<char>, int), DecodeError>(
                (s@, end as int),
            ),
            Err(e) => decode_text(b@, at as int) == Err::<(Seq<char>, int), DecodeError>(e),
        },
{
    let len: usize = b.len();
    if len - at < LEN_BYTES {
        return Err(DecodeError::Truncated);
    }
    let n: u64 = read_le(b, at, LEN_BYTES);
    let start: usize = at + LEN_BYTES;
    if ((len - start) as u64) < n {
        return Err(DecodeError::Truncated);
    }
    let end: usize = start + n as usize;
    let piece = slice_subrange(b, start, end);
    match utf8_text(piece) {
        None => Err(DecodeError::InvalidText),
        Some(t) => {
            let s = t.to_owned();
            proof {
                assert(encode_utf8(s@) == piece@);
                assert(decode_utf8(encode_utf8(s@)) == s@);
            }
            Ok((s, end))
        },
    }
}

fn read_named(b: &[u8]) -> (r: Result<String, DecodeError>)
    requires
        b@.len() >= 1,
    ensures
        match r {
            Ok(s) => decode_named(b@) == Ok::<Seq<char>, DecodeError>(s@),
            Err(e) => decode_named(b@) == Err::<Seq<char>, DecodeError>(e),
        },
{
    match read_text(b, 1) {
        Err(e) => Err(e),
        Ok((s, end)) => {
            if end < b.len() {
                Err(DecodeError::TrailingBytes)
            } else {
                Ok(s)
            }
        },
    }
}

fn read_named_loops(b: &[u8]) -> (r: Result<(String, i32), DecodeError>)
    requires
        b@.len() >= 1,
    ensures
        match r {
            Ok((s, l)) => decode_named_loops(b@) == Ok::<(Seq<char>, i32), DecodeError>((s@, l)),
            Err(e) => decode_named_loops(b@) == Err::<(Seq<char>, i32), DecodeError>(e),
        },
{
    match read_text(b, 1) {
        Err(e) => Err(e),
        Ok((s, end)) => {
            let len: usize = b.len();
            if len - end < LOOPS_BYTES {
                Err(DecodeError::Truncated)
            } else if len - end > LOOPS_BYTES {
                Err(DecodeError::TrailingBytes)
            } else {
                let w = read_le(b, end, LOOPS_BYTES);
                proof {
                    lemma_le_value_bound(b@.subrange(end as int, end + LOOPS_BYTES));
                    lemma_pow256_facts();
                }
                Ok((s, u32_loops(w as u32)))
            }
        },
    }
}

fn bare(b: &[u8], c: Command) -> (r: Result<Command, DecodeError>)
    requires
        b@.len() >= 1,
    ensures
        decoded_view(r) == decode_bare(b@, c@),
{
    if b.len() > 1 {
        Err(DecodeError::TrailingBytes)
    } else {
        Ok(c)
    }
}

/// The command that a packet holds, or why it holds none. Never panics.
pub fn decode(b: &[u8]) -> (r: Result<Command, DecodeError>)
    ensures
        decoded_view(r) == decode_spec(b@),
{
    if b.len() == 0 {
        return Err(DecodeError::Empty);
    }
    let tag = b[0];
    if tag == TAG_LOAD_MUSIC {
        match read_named(b) {
            Err(e) => Err(e),
            Ok(filename) => Ok(Command::LoadMusic { filename }),
        }
    } else if tag == TAG_PLAY_MUSIC {
        match read_named_loops(b) {
            Err(e) => Err(e),
            Ok((filename, loops)) => Ok(Command::PlayMusic { filename, loops }),
        }
    } else if tag == TAG_STOP_MUSIC {
        bare(b, Command::StopMusic)
    } else if tag == TAG_PAUSE_MUSIC {
        bare(b, Command::PauseMusic)
    } else if tag == TAG_RESUME_MUSIC {
        bare(b, Command::ResumeMusic)
    } else if tag == TAG_REWIND_MUSIC {
        bare(b, Command::RewindMusic)
    } else if tag == TAG_LOAD_SOUND {
        match read_named(b) {
            Err(e) => Err(e),
            Ok(filename) => Ok(Command::LoadSound { filename }),
        }
    } else if tag == TAG_PLAY_SOUND {
        match read_named_loops(b) {
            Err(e) => Err(e),
            Ok((filename, loops)) => Ok(Command::PlaySound { filename, loops }),
        }
    } else {
        Err(DecodeError::UnknownTag { tag })
    }
}


proof fn lemma_text_round_trip(tag: u8, f: Seq<char>, tail: Seq<u8>)
    requires
        encode_utf8(f).len() <= u64::MAX,
    ensures
        decode_text(seq![tag] + text_field(f) + tail, 1) == Ok::<(Seq<char>, int), DecodeError>(
            (f, 1 + text_field(f).len() as int),
        ),
{
    let e = encode_utf8(f);
    let n = e.len();
    let b = seq![tag] + text_field(f) + tail;
    lemma_pow256_facts();
    lemma_le_round_trip(n, LEN_BYTES as nat);
    assert(b.subrange(1, 1 + LEN_BYTES) =~= le_bytes(n, LEN_BYTES as nat));
    assert(b.subrange(1 + LEN_BYTES, 1 + LEN_BYTES + n) =~= e);
}

proof fn lemma_loops_round_trip(l: i32)
    ensures
        loops_field(l).len() == LOOPS_BYTES,
        word_loops(le_value(loops_field(l))) == l,
{
    lemma_pow256_facts();
    lemma_le_round_trip(loops_word(l), LOOPS_BYTES as nat);
}

/// Decoding the packet of any command gives that command back.
pub proof fn lemma_round_trip(c: CommandModel)
    requires
        encodable(c),
    ensures
        decode_spec(encode_spec(c)) == Ok::<CommandModel, DecodeError>(c),
{
    let b = encode_spec(c);
    match c {
        CommandModel::LoadMusic { filename } => {
            lemma_text_round_trip(TAG_LOAD_MUSIC, filename, Seq::empty());
            assert(b =~= seq![TAG_LOAD_MUSIC] + text_field(filename) + Seq::<u8>::empty());
        },
        CommandModel::LoadSound { filename } => {
            lemma_text_round_trip(TAG_LOAD_SOUND, filename, Seq::empty());
            assert(b =~= seq![TAG_LOAD_SOUND] + text_field(filename) + Seq::<u8>::empty());
        },
        CommandModel::PlayMusic { filename, loops } => {
            lemma_text_round_trip(TAG_PLAY_MUSIC, filename, loops_field(loops));
            lemma_loops_round_trip(loops);
            let end: int = 1 + text_field(filename).len() as int;
            assert(b.subrange(end, end + LOOPS_BYTES) =~= loops_field(loops));
        },
        CommandModel::PlaySound { filename, loops } => {
            lemma_text_round_trip(TAG_PLAY_SOUND, filename, loops_field(loops));
            lemma_loops_round_trip(loops);
            let end: int = 1 + text_field(filename).len() as int;
            assert(b.subrange(end, end + LOOPS_BYTES) =~= loops_field(loops));
        },
        _ => {},
    }
}

} // verus!
