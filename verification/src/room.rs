//! Rooms: their codes, their peers and the addresses of these.

use crate::addr::Ipv4Addr;
use crate::clock::{is_unix_time, unix_time_now};
use crate::keys::{base64_bytes, key_of_text, KeyError, PublicKey};
use crate::random::{draw, drawn};
use crate::text::{
    all_ascii, ascii_alphanumeric, ascii_lower, ascii_upper, chars_of, is_alphanumeric,
    is_white_space, join, law_split_is_undone_by_join, law_trim_takes_white_space, lemma_split_join, lemma_split_one, lemma_upper_of_lower, lemma_utf8_len,
    same_text, spells, split, split_chars, takes_bytes, to_upper_case, trim, trimmed, trimmed_end,
    trimmed_start, upper_case, utf8_len,
};
use vstd::prelude::*;

verus! {

/// How many characters a node name may have.
pub const MAX_NODE_NAME: usize = 64;

/// Information about a peer connected to the room.
#[derive(Debug)]
pub struct PeerInfo {
    /// The public key of the peer (base64 encoded).
    pub public_key: String,
    /// The virtual IP address assigned to the peer within the LAN.
    pub virtual_ip: Ipv4Addr,
    /// The node name of the peer.
    pub node_name: String,
    /// Latency in milliseconds to this peer, as the bits of a 64-bit floating-point number.
    pub latency_ms_bits: Option<u64>,
    /// Whether the peer is currently considered connected.
    pub connected: bool,
}

impl Clone for PeerInfo {
    fn clone(&self) -> (r: PeerInfo)
        ensures
            r == *self,
    {
        PeerInfo {
            public_key: self.public_key.clone(),
            virtual_ip: self.virtual_ip,
            node_name: self.node_name.clone(),
            latency_ms_bits: self.latency_ms_bits,
            connected: self.connected,
        }
    }
}

/// Represents an Elysium virtual LAN room.
#[derive(Debug, Clone)]
pub struct Room {
    /// The unique room code.
    pub room_code: String,
    /// The public key of the host (base64 encoded).
    pub host_public_key: String,
    /// List of peers in the room (includes the host).
    pub peers: Vec<PeerInfo>,
    /// The virtual subnet for this room, e.g., "10.7.0.0/24".
    pub subnet: String,
    /// Unix timestamp of when the room was created.
    pub created_at: i64,
}

/// Why a room code is refused.
#[derive(Debug, Clone, Copy, PartialEq, Eq, Structural)]
pub enum RoomCodeError {
    /// It has not the form ELYSIUM-XXXX-XXXX.
    Format,
    /// It has that form, with something else than letters and digits in it.
    InvalidCharacters,
}

/// What a room code is, apart from white space around it and from case.
pub open spec fn normal_code(code: Seq<char>) -> Seq<char> {
    upper_case(trimmed(code))
}

/// A normal code has the form ELYSIUM-XXXX-XXXX, each group of four bytes.
pub open spec fn code_has_form(normal: Seq<char>) -> bool {
    let parts = split(normal, '-');
    &&& parts.len() == 3
    &&& parts[0] == "ELYSIUM"@
    &&& utf8_len(parts[1]) == 4
    &&& utf8_len(parts[2]) == 4
}

/// The text is made of ASCII letters and digits.
pub open spec fn all_alphanumeric(s: Seq<char>) -> bool {
    forall|i: int| 0 <= i < s.len() ==> is_alphanumeric(#[trigger] s[i])
}

/// What is made of a normal code.
pub open spec fn code_verdict(normal: Seq<char>) -> Result<(), RoomCodeError> {
    let parts = split(normal, '-');
    if !code_has_form(normal) {
        Err(RoomCodeError::Format)
    } else if !all_alphanumeric(parts[1]) || !all_alphanumeric(parts[2]) {
        Err(RoomCodeError::InvalidCharacters)
    } else {
        Ok(())
    }
}

impl RoomCodeError {
    /// What the error says.
    pub open spec fn text(self) -> Seq<char> {
        match self {
            RoomCodeError::Format => "Invalid room code format. Expected ELYSIUM-XXXX-XXXX"@,
            RoomCodeError::InvalidCharacters => "Room code contains invalid characters"@,
        }
    }

    /// The error as a message.
    pub fn message(&self) -> (r: String)
        ensures
            r@ == self.text(),
    {
        match self {
            RoomCodeError::Format => "Invalid room code format. Expected ELYSIUM-XXXX-XXXX".to_owned(),
            RoomCodeError::InvalidCharacters => "Room code contains invalid characters".to_owned(),
        }
    }
}

/// Tests whether all characters are ASCII letters and digits.
fn alphanumeric(chars: &Vec<char>) -> (r: bool)
    ensures
        r == all_alphanumeric(chars@),
{
    let mut i: usize = 0;
    while i < chars.len()
        invariant
            i <= chars@.len(),
            forall|j: int| 0 <= j < i ==> is_alphanumeric(#[trigger] chars@[j]),
        decreases chars@.len() - i,
    {
        if !ascii_alphanumeric(chars[i]) {
            assert(!is_alphanumeric(chars@[i as int]));
            return false;
        }
        i += 1;
    }
    true
}

/// Checks a code in its normal form.
pub fn check_normal_code(normal: &str) -> (r: Result<(), RoomCodeError>)
    ensures
        r == code_verdict(normal@),
{
    let chars: Vec<char> = chars_of(normal);
    let parts: Vec<Vec<char>> = split_chars(&chars, '-');
    let ghost views = split(normal@, '-');
    assert(views.len() == parts@.len());
    if parts.len() != 3 {
        return Err(RoomCodeError::Format);
    }
    assert(views[0] == parts@[0]@ && views[1] == parts@[1]@ && views[2] == parts@[2]@);
    if !spells(&parts[0], "ELYSIUM") || !takes_bytes(&parts[1], 4) || !takes_bytes(&parts[2], 4) {
        return Err(RoomCodeError::Format);
    }
    if !alphanumeric(&parts[1]) || !alphanumeric(&parts[2]) {
        return Err(RoomCodeError::InvalidCharacters);
    }
    Ok(())
}

impl Room {
    /// Validate room code format (ELYSIUM-XXXX-XXXX)
    pub fn validate_room_code(code: &str) -> (r: Result<(), RoomCodeError>)
        ensures
            r == code_verdict(normal_code(code@)),
    {
        check_normal_code(to_upper_case(trim(code).as_str()).as_str())
    }

    /// Generate a new random room code in the format ELYSIUM-XXXX-XXXX using secure CSPRNG.
    pub fn generate_room_code() -> (r: String)
        ensures
            exists|bytes: Seq<u8>| bytes.len() == 8 && r@ == #[trigger] room_code(bytes),
            code_verdict(normal_code(r@)) == Ok::<(), RoomCodeError>(()),
            r@.len() == 17,
            "ELYSIUM-"@.is_prefix_of(r@),
            is_drawn_code(r@),
    {
        let bytes: [u8; 8] = draw::<8>();
        let r: String = room_code_of(&bytes);
        assert(drawn(bytes) && r@ == room_code(bytes@));
        proof {
            law_room_codes_are_valid(bytes@);
        }
        r
    }
}

/// The characters that codes are made of: letters and digits without the ambiguous ones, which
/// are 0 and O, 1 and I.
pub open spec fn code_charset() -> Seq<char> {
    "ABCDEFGHJKLMNPQRSTUVWXYZ23456789"@
}

/// The characters that some bytes pick.
pub open spec fn code_group(bytes: Seq<u8>) -> Seq<char> {
    bytes.map_values(|b: u8| code_charset()[(b % 32) as int])
}

/// The room code that eight bytes pick.
pub open spec fn room_code(bytes: Seq<u8>) -> Seq<char> {
    "ELYSIUM-"@ + code_group(bytes.subrange(0, 4)) + "-"@ + code_group(bytes.subrange(4, 8))
}

/// The code is one that bytes drawn at random pick.
pub open spec fn is_drawn_code(code: Seq<char>) -> bool {
    exists|bytes: [u8; 8]| #[trigger] drawn(bytes) && code == room_code(bytes@)
}

/// Writes the room code that eight bytes pick.
pub fn room_code_of(bytes: &[u8; 8]) -> (r: String)
    ensures
        r@ == room_code(bytes@),
{
    let charset: Vec<char> = chars_of("ABCDEFGHJKLMNPQRSTUVWXYZ23456789");
    proof {
        reveal_strlit("ABCDEFGHJKLMNPQRSTUVWXYZ23456789");
        reveal_strlit("-");
    }
    let mut r: String = "ELYSIUM-".to_owned();
    let ghost start = "ELYSIUM-"@;
    let ghost (g1, g2) = (code_group(bytes@.subrange(0, 4)), code_group(bytes@.subrange(4, 8)));
    let mut i: usize = 0;
    while i < 8
        invariant
            i <= 8,
            charset@ == code_charset(),
            charset@.len() == 32,
            g1 == code_group(bytes@.subrange(0, 4)),
            g2 == code_group(bytes@.subrange(4, 8)),
            "-"@ == seq!['-'],
            r@ == if i <= 4 {
                start + g1.take(i as int)
            } else {
                start + g1 + "-"@ + g2.take(i - 4)
            },
        decreases 8 - i,
    {
        if i == 4 {
            r.push('-');
            assert(r@ =~= start + g1 + "-"@ + g2.take(0));
        }
        let c: char = charset[(bytes[i] % 32) as usize];
        r.push(c);
        assert(c == if i < 4 {
            g1[i as int]
        } else {
            g2[i - 4]
        });
        i += 1;
        assert(r@ =~= if i <= 4 {
            start + g1.take(i as int)
        } else {
            start + g1 + "-"@ + g2.take(i - 4)
        });
    }
    assert(g2.take(4) =~= g2);
    r
}

/// A character of the charset is an upper-case letter or a digit, and none of the ambiguous
/// ones.
proof fn lemma_code_charset(i: int)
    requires
        0 <= i < 32,
    ensures
        ({
            let c = code_charset()[i];
            &&& is_alphanumeric(c)
            &&& ascii_upper(c) == c
            &&& c as u32 <= 127
            &&& !is_white_space(c)
            &&& c != '-'
            &&& c != '0' && c != 'O' && c != '1' && c != 'I'
        }),
        code_charset().len() == 32,
{
    reveal_strlit("ABCDEFGHJKLMNPQRSTUVWXYZ23456789");
}

/// Every room code that bytes can pick is a valid one, is its own normal form, has seventeen
/// characters, and shows no ambiguous character in its groups.
pub proof fn law_room_codes_are_valid(bytes: Seq<u8>)
    requires
        bytes.len() == 8,
    ensures
        code_verdict(normal_code(room_code(bytes))) == Ok::<(), RoomCodeError>(()),
        normal_code(room_code(bytes)) == room_code(bytes),
        room_code(bytes).len() == 17,
        "ELYSIUM-"@.is_prefix_of(room_code(bytes)),
        forall|i: int|
            8 <= i < 17 ==> {
                let c = #[trigger] room_code(bytes)[i];
                c != '0' && c != 'O' && c != '1' && c != 'I'
            },
{
    let code = room_code(bytes);
    let g1 = code_group(bytes.subrange(0, 4));
    let g2 = code_group(bytes.subrange(4, 8));
    reveal_strlit("ELYSIUM-");
    reveal_strlit("ELYSIUM");
    reveal_strlit("-");
    let name = "ELYSIUM"@;
    assert("ELYSIUM-"@ =~= name.push('-'));
    assert forall|i: int| 0 <= i < 4 implies {
        &&& is_alphanumeric(#[trigger] g1[i])
        &&& ascii_upper(g1[i]) == g1[i]
        &&& g1[i] as u32 <= 127
        &&& !is_white_space(g1[i])
        &&& g1[i] != '-' && g1[i] != '0' && g1[i] != 'O' && g1[i] != '1' && g1[i] != 'I'
    } by {
        lemma_code_charset((bytes[i] % 32) as int);
    }
    assert forall|i: int| 0 <= i < 4 implies {
        &&& is_alphanumeric(#[trigger] g2[i])
        &&& ascii_upper(g2[i]) == g2[i]
        &&& g2[i] as u32 <= 127
        &&& !is_white_space(g2[i])
        &&& g2[i] != '-' && g2[i] != '0' && g2[i] != 'O' && g2[i] != '1' && g2[i] != 'I'
    } by {
        lemma_code_charset((bytes[i + 4] % 32) as int);
    }
    assert(code =~= name.push('-') + (g1.push('-') + g2));
    assert forall|i: int| 0 <= i < 17 implies (#[trigger] code[i]) as u32 <= 127 && ascii_upper(
        code[i],
    ) == code[i] by {
        if 8 <= i < 12 {
            assert(code[i] == g1[i - 8]);
        } else if i > 12 {
            assert(code[i] == g2[i - 13]);
        }
    }
    assert forall|i: int| 8 <= i < 17 implies {
        let c = #[trigger] code[i];
        c != '0' && c != 'O' && c != '1' && c != 'I'
    } by {
        if i < 12 {
            assert(code[i] == g1[i - 8]);
        } else if i > 12 {
            assert(code[i] == g2[i - 13]);
        }
    }
    assert(code[0] == 'E');
    assert(code[16] == g2[3]);
    assert(trimmed_start(code) == code);
    assert(trimmed_end(code) == code);
    assert(all_ascii(code));
    assert(upper_case(code) =~= code);
    lemma_split_join(name, g1.push('-') + g2, '-');
    lemma_split_join(g1, g2, '-');
    lemma_split_one(name, '-');
    assert(!g1.contains('-'));
    assert(!g2.contains('-'));
    lemma_split_one(g1, '-');
    lemma_split_one(g2, '-');
    lemma_utf8_len(g1);
    lemma_utf8_len(g2);
    let parts = split(code, '-');
    assert(parts =~= seq![name, g1, g2]);
}

/// An ASCII text in lower case.
pub open spec fn lower_case(s: Seq<char>) -> Seq<char> {
    s.map_values(|c: char| ascii_lower(c))
}

/// Trimming a text and putting it in lower case may change places.
proof fn lemma_trimmed_lower(s: Seq<char>)
    requires
        all_ascii(s),
    ensures
        trimmed_start(lower_case(s)) == lower_case(trimmed_start(s)),
        trimmed_end(lower_case(s)) == lower_case(trimmed_end(s)),
        all_ascii(trimmed_start(s)),
        all_ascii(trimmed_end(s)),
    decreases s.len(),
{
    if s.len() > 0 {
        assert(s[0] as u32 <= 127);
        assert(s[s.len() - 1] as u32 <= 127);
        let (a, b) = (s.drop_first(), s.drop_last());
        assert forall|i: int| 0 <= i < a.len() implies (#[trigger] a[i]) as u32 <= 127 by {
            assert(s[i + 1] as u32 <= 127);
        }
        assert forall|i: int| 0 <= i < b.len() implies (#[trigger] b[i]) as u32 <= 127 by {
            assert(s[i] as u32 <= 127);
        }
        lemma_trimmed_lower(a);
        lemma_trimmed_lower(b);
        assert(lower_case(s).drop_first() =~= lower_case(a));
        assert(lower_case(s).drop_last() =~= lower_case(b));
    }
}

/// A room code may be given in lower case as well: an ASCII code means the same then.
pub proof fn law_room_code_ignores_case(code: Seq<char>)
    requires
        all_ascii(code),
    ensures
        normal_code(lower_case(code)) == normal_code(code),
        code_verdict(normal_code(lower_case(code))) == code_verdict(normal_code(code)),
{
    lemma_trimmed_lower(code);
    let start = trimmed_start(code);
    lemma_trimmed_lower(start);
    let t = trimmed(code);
    assert(trimmed(lower_case(code)) == lower_case(t));
    assert forall|i: int| 0 <= i < t.len() implies {
        let c = #[trigger] t[i];
        &&& ascii_lower(c) as u32 <= 127
        &&& ascii_upper(ascii_lower(c)) == ascii_upper(c)
    } by {
        assert(t[i] as u32 <= 127);
        lemma_upper_of_lower(t[i]);
    }
    assert(all_ascii(lower_case(t)));
    assert(upper_case(lower_case(t)) =~= upper_case(t));
}

/// Which codes are valid in their normal form, character by character: ELYSIUM, a hyphen, four
/// letters or digits, a hyphen, and four more.
pub proof fn law_code_is_valid_by_its_characters(n: Seq<char>)
    ensures
        code_verdict(n) == Ok::<(), RoomCodeError>(()) <==> {
            &&& n.len() == 17
            &&& n[0] == 'E' && n[1] == 'L' && n[2] == 'Y' && n[3] == 'S' && n[4] == 'I' && n[5]
                == 'U' && n[6] == 'M' && n[7] == '-' && n[12] == '-'
            &&& forall|i: int|
                8 <= i < 12 || 13 <= i < 17 ==> (48 <= #[trigger] n[i] as u32 <= 57 || 65 <= n[i] as u32
                    <= 90 || 97 <= n[i] as u32 <= 122)
        },
{
    reveal_strlit("ELYSIUM");
    let name = "ELYSIUM"@;
    let parts = split(n, '-');
    law_split_is_undone_by_join(n, '-');
    if code_verdict(n) is Ok {
        let (p, q) = (parts[1], parts[2]);
        lemma_alphanumeric_len(p);
        lemma_alphanumeric_len(q);
        reveal_with_fuel(join, 4);
        assert(parts.drop_last().drop_last()[0] == name);
        assert(n =~= name.push('-') + p.push('-') + q);
        assert forall|i: int| 8 <= i < 12 || 13 <= i < 17 implies is_alphanumeric(
            #[trigger] n[i],
        ) by {
            if i < 12 {
                assert(n[i] == p[i - 8]);
            } else {
                assert(n[i] == q[i - 13]);
            }
        }
    }
    if n.len() == 17 && n[0] == 'E' && n[1] == 'L' && n[2] == 'Y' && n[3] == 'S' && n[4] == 'I'
        && n[5] == 'U' && n[6] == 'M' && n[7] == '-' && n[12] == '-' && (forall|i: int|
        8 <= i < 12 || 13 <= i < 17 ==> (48 <= #[trigger] n[i] as u32 <= 57 || 65 <= n[i] as u32 <= 90
            || 97 <= n[i] as u32 <= 122)) {
        let (p, q) = (n.subrange(8, 12), n.subrange(13, 17));
        assert(n =~= name.push('-') + (p.push('-') + q));
        assert forall|i: int| 0 <= i < 4 implies is_alphanumeric(#[trigger] p[i]) by {
            assert(p[i] == n[i + 8]);
        }
        assert forall|i: int| 0 <= i < 4 implies is_alphanumeric(#[trigger] q[i]) by {
            assert(q[i] == n[i + 13]);
        }
        lemma_split_join(name, p.push('-') + q, '-');
        lemma_split_join(p, q, '-');
        lemma_split_one(name, '-');
        assert(!p.contains('-'));
        assert(!q.contains('-'));
        lemma_split_one(p, '-');
        lemma_split_one(q, '-');
        lemma_alphanumeric_len(p);
        lemma_alphanumeric_len(q);
        assert(parts =~= seq![name, p, q]);
    }
}

/// Letters and digits of ASCII take a byte each.
proof fn lemma_alphanumeric_len(s: Seq<char>)
    requires
        all_alphanumeric(s),
    ensures
        utf8_len(s) == s.len(),
{
    assert forall|i: int| 0 <= i < s.len() implies (#[trigger] s[i]) as u32 <= 127 by {
        assert(is_alphanumeric(s[i]));
    }
    lemma_utf8_len(s);
}

/// A code of the right form, in capitals or not and with white space around it, is taken.
pub proof fn law_codes_are_taken_as_typed(a: Seq<char>, code: Seq<char>, b: Seq<char>)
    requires
        forall|i: int|
            0 <= i < a.len() ==> #[trigger] a[i] == ' ' || a[i] == '\t' || a[i] == '\n' || a[i]
                == '\r',
        forall|i: int|
            0 <= i < b.len() ==> #[trigger] b[i] == ' ' || b[i] == '\t' || b[i] == '\n' || b[i]
                == '\r',
        code.len() == 17,
        (code[0] == 'E' || code[0] == 'e') && (code[1] == 'L' || code[1] == 'l') && (code[2] == 'Y'
            || code[2] == 'y') && (code[3] == 'S' || code[3] == 's') && (code[4] == 'I' || code[4]
            == 'i') && (code[5] == 'U' || code[5] == 'u') && (code[6] == 'M' || code[6] == 'm'),
        code[7] == '-' && code[12] == '-',
        forall|i: int|
            8 <= i < 12 || 13 <= i < 17 ==> (48 <= #[trigger] code[i] as u32 <= 57 || 65 <= code[i] as u32
                <= 90 || 97 <= code[i] as u32 <= 122),
    ensures
        code_verdict(normal_code(a + code + b)) == Ok::<(), RoomCodeError>(()),
{
    assert(code[16] as u32 <= 126);
    law_trim_takes_white_space(a, code, b);
    assert forall|i: int| 0 <= i < code.len() implies #[trigger] code[i] as u32 <= 127 by {}
    let n = normal_code(a + code + b);
    assert(n =~= code.map_values(|c: char| ascii_upper(c)));
    assert forall|i: int| 8 <= i < 12 || 13 <= i < 17 implies (48 <= #[trigger] n[i] as u32 <= 57 || 65
        <= n[i] as u32 <= 90 || 97 <= n[i] as u32 <= 122) by {
        assert(n[i] == ascii_upper(code[i]));
    }
    assert(n[0] == ascii_upper(code[0]) && n[1] == ascii_upper(code[1]) && n[2] == ascii_upper(
        code[2],
    ) && n[3] == ascii_upper(code[3]) && n[4] == ascii_upper(code[4]) && n[5] == ascii_upper(code[5])
        && n[6] == ascii_upper(code[6]) && n[7] == ascii_upper(code[7]) && n[12] == ascii_upper(
        code[12],
    ));
    lemma_capitals();
    law_code_is_valid_by_its_characters(n);
}

/// The capitals of the letters of the name.
proof fn lemma_capitals()
    ensures
        ascii_upper('e') == 'E' && ascii_upper('l') == 'L' && ascii_upper('y') == 'Y'
            && ascii_upper('s') == 'S' && ascii_upper('i') == 'I' && ascii_upper('u') == 'U'
            && ascii_upper('m') == 'M',
{
    vstd::utf8::char_u32_cast('E', 69u32);
    vstd::utf8::char_u32_cast('L', 76u32);
    vstd::utf8::char_u32_cast('Y', 89u32);
    vstd::utf8::char_u32_cast('S', 83u32);
    vstd::utf8::char_u32_cast('I', 73u32);
    vstd::utf8::char_u32_cast('U', 85u32);
    vstd::utf8::char_u32_cast('M', 77u32);
}

/// Bytes pick a code place by place, each of the thirty-two characters as likely as any other: two
/// codes are the same exactly if the bytes agree in their last five bits.
pub proof fn law_bytes_pick_codes(x: Seq<u8>, y: Seq<u8>)
    requires
        x.len() == 8,
        y.len() == 8,
    ensures
        room_code(x) == room_code(y) <==> forall|i: int| 0 <= i < 8 ==> #[trigger] x[i] % 32 == y[i] % 32,
{
    let (a, b) = (room_code(x), room_code(y));
    reveal_strlit("ELYSIUM-");
    reveal_strlit("-");
    lemma_code_charset(0);
    assert forall|i: int| 0 <= i < 4 implies #[trigger] a[8 + i] == code_charset()[(x[i] % 32) as int]
        && b[8 + i] == code_charset()[(y[i] % 32) as int] by {}
    assert forall|i: int| 4 <= i < 8 implies #[trigger] a[9 + i] == code_charset()[(x[i] % 32) as int]
        && b[9 + i] == code_charset()[(y[i] % 32) as int] by {}
    if a == b {
        assert forall|i: int| 0 <= i < 8 implies #[trigger] x[i] % 32 == y[i] % 32 by {
            if i < 4 {
                assert(a[8 + i] == b[8 + i]);
            } else {
                assert(a[9 + i] == b[9 + i]);
            }
            lemma_charset_distinct((x[i] % 32) as int, (y[i] % 32) as int);
        }
    }
    if forall|i: int| 0 <= i < 8 ==> #[trigger] x[i] % 32 == y[i] % 32 {
        let (x1, y1) = (x.subrange(0, 4), y.subrange(0, 4));
        let (x2, y2) = (x.subrange(4, 8), y.subrange(4, 8));
        assert forall|i: int| 0 <= i < 4 implies code_group(x1)[i] == code_group(y1)[i] by {
            assert(x[i] % 32 == y[i] % 32);
        }
        assert forall|i: int| 0 <= i < 4 implies code_group(x2)[i] == code_group(y2)[i] by {
            assert(x[i + 4] % 32 == y[i + 4] % 32);
        }
        assert(code_group(x1) =~= code_group(y1));
        assert(code_group(x2) =~= code_group(y2));
    }
}

/// No two places of the charset hold the same character.
proof fn lemma_charset_distinct(i: int, j: int)
    requires
        0 <= i < 32,
        0 <= j < 32,
        code_charset()[i] == code_charset()[j],
    ensures
        i == j,
{
    reveal_strlit("ABCDEFGHJKLMNPQRSTUVWXYZ23456789");
}

/// The host's address in every room.
pub open spec fn host_address() -> Ipv4Addr {
    Ipv4Addr { a: 10, b: 7, c: 0, d: 1 }
}

/// Why something cannot be done with a room.
#[derive(Debug, Clone, Copy, PartialEq, Eq, Structural)]
pub enum RoomError {
    /// The name of the host is too long.
    HostNameTooLong,
    /// The name of the peer is too long.
    NodeNameTooLong,
    /// The public key of the peer is no base64.
    KeyNotBase64,
    /// The public key of the peer is of the wrong length.
    KeyLength,
    /// The peer is in the room already.
    AlreadyPresent,
    /// All addresses are taken.
    NoAddress,
    /// The peer is not in the room.
    NotFound,
}

impl RoomError {
    /// What the error says.
    pub open spec fn text(self) -> Seq<char> {
        match self {
            RoomError::HostNameTooLong => {
                "Host node name exceeds maximum allowed length of 64 characters"@
            },
            RoomError::NodeNameTooLong => {
                "Node name exceeds maximum allowed length of 64 characters"@
            },
            RoomError::KeyNotBase64 => "Invalid base64 public key"@,
            RoomError::KeyLength => "Invalid public key length: expected 32 bytes"@,
            RoomError::AlreadyPresent => "Peer is already in the room"@,
            RoomError::NoAddress => "No available IP addresses in the subnet"@,
            RoomError::NotFound => "Peer not found in room"@,
        }
    }

    /// The error as a message.
    pub fn message(&self) -> (r: String)
        ensures
            r@ == self.text(),
    {
        match self {
            RoomError::HostNameTooLong => {
                "Host node name exceeds maximum allowed length of 64 characters".to_owned()
            },
            RoomError::NodeNameTooLong => {
                "Node name exceeds maximum allowed length of 64 characters".to_owned()
            },
            RoomError::KeyNotBase64 => "Invalid base64 public key".to_owned(),
            RoomError::KeyLength => "Invalid public key length: expected 32 bytes".to_owned(),
            RoomError::AlreadyPresent => "Peer is already in the room".to_owned(),
            RoomError::NoAddress => "No available IP addresses in the subnet".to_owned(),
            RoomError::NotFound => "Peer not found in room".to_owned(),
        }
    }
}

/// A peer of the list has the address with this last octet, or one in another network that
/// ends in it.
pub open spec fn octet_used(peers: Seq<PeerInfo>, octet: u8) -> bool {
    exists|i: int| 0 <= i < peers.len() && (#[trigger] peers[i]).virtual_ip.d == octet
}

/// The octet with which the next address ends: the least from 2 to 254 that no peer uses.
pub open spec fn is_next_octet(peers: Seq<PeerInfo>, octet: u8) -> bool {
    &&& 2 <= octet <= 254
    &&& !octet_used(peers, octet)
    &&& forall|o: u8| 2 <= o < octet ==> #[trigger] octet_used(peers, o)
}

/// No address is left.
pub open spec fn is_full(peers: Seq<PeerInfo>) -> bool {
    forall|o: u8| 2 <= o <= 254 ==> #[trigger] octet_used(peers, o)
}

/// A peer of the list has the key.
pub open spec fn key_present(peers: Seq<PeerInfo>, key: Seq<char>) -> bool {
    exists|i: int| 0 <= i < peers.len() && (#[trigger] peers[i]).public_key@ == key
}

/// No two peers of the list share an address or a key.
pub open spec fn peers_distinct(peers: Seq<PeerInfo>) -> bool {
    forall|i: int, j: int|
        0 <= i < j < peers.len() ==> (#[trigger] peers[i]).virtual_ip != (
        #[trigger] peers[j]).virtual_ip && peers[i].public_key@ != peers[j].public_key@
}

/// Why nobody can join under a name and a key, if so: the first of these that applies.
pub open spec fn join_error(peers: Seq<PeerInfo>, key: Seq<char>, name: Seq<char>) -> Option<
    RoomError,
> {
    if name.len() > MAX_NODE_NAME {
        Some(RoomError::NodeNameTooLong)
    } else if key_of_text(key) == Err::<Seq<u8>, KeyError>(KeyError::Base64) {
        Some(RoomError::KeyNotBase64)
    } else if key_of_text(key) is Err {
        Some(RoomError::KeyLength)
    } else if key_present(peers, key) {
        Some(RoomError::AlreadyPresent)
    } else if is_full(peers) {
        Some(RoomError::NoAddress)
    } else {
        None
    }
}

/// The peers whose key is another one.
pub open spec fn without_key(peers: Seq<PeerInfo>, key: Seq<char>) -> Seq<PeerInfo> {
    peers.filter(|p: PeerInfo| p.public_key@ != key)
}

impl Room {
    /// A room with the given code, made at the given time, of its host alone.
    pub fn with_host(
        room_code: String,
        created_at: i64,
        host_public_key: String,
        host_node_name: String,
    ) -> (r: Room)
        ensures
            r.room_code == room_code,
            r.host_public_key == host_public_key,
            r.peers@ == seq![
                PeerInfo {
                    public_key: host_public_key,
                    virtual_ip: host_address(),
                    node_name: host_node_name,
                    latency_ms_bits: Some(0),
                    connected: true,
                },
            ],
            r.subnet@ == "10.7.0.0/24"@,
            r.created_at == created_at,
            peers_distinct(r.peers@),
    {
        let host: PeerInfo = PeerInfo {
            public_key: host_public_key.clone(),
            virtual_ip: Ipv4Addr::new(10, 7, 0, 1),
            node_name: host_node_name,
            latency_ms_bits: Some(0),
            connected: true,
        };
        let mut peers: Vec<PeerInfo> = Vec::new();
        peers.push(host);
        Room { room_code, host_public_key, peers, subnet: "10.7.0.0/24".to_owned(), created_at }
    }

    /// Create a new room with the given host.
    pub fn create_room(host_public_key: String, host_node_name: String) -> (r: Result<
        Room,
        RoomError,
    >)
        ensures
            match r {
                Ok(room) => {
                    &&& host_node_name@.len() <= MAX_NODE_NAME
                    &&& exists|bytes: Seq<u8>|
                        bytes.len() == 8 && room.room_code@ == #[trigger] room_code(bytes)
                    &&& is_drawn_code(room.room_code@)
                    &&& is_unix_time(room.created_at)
                    &&& room.host_public_key == host_public_key
                    &&& room.peers@ == seq![
                        PeerInfo {
                            public_key: host_public_key,
                            virtual_ip: host_address(),
                            node_name: host_node_name,
                            latency_ms_bits: Some(0),
                            connected: true,
                        },
                    ]
                    &&& room.subnet@ == "10.7.0.0/24"@
                    &&& peers_distinct(room.peers@)
                },
                Err(e) => e is HostNameTooLong && host_node_name@.len() > MAX_NODE_NAME,
            },
    {
        if host_node_name.as_str().unicode_len() > MAX_NODE_NAME {
            return Err(RoomError::HostNameTooLong);
        }
        Ok(
            Room::with_host(
                Room::generate_room_code(),
                unix_time_now(),
                host_public_key,
                host_node_name,
            ),
        )
    }

    /// Allocate the next available IP address in the 10.7.0.0/24 subnet.
    pub fn allocate_ip(&self) -> (r: Result<Ipv4Addr, RoomError>)
        ensures
            match r {
                Ok(ip) => ip.a == 10 && ip.b == 7 && ip.c == 0 && is_next_octet(self.peers@, ip.d),
                Err(e) => e is NoAddress && is_full(self.peers@),
            },
    {
        let mut octet: u8 = 2;
        while octet <= 254
            invariant
                2 <= octet <= 255,
                forall|o: u8| 2 <= o < octet ==> #[trigger] octet_used(self.peers@, o),
            decreases 255 - octet,
        {
            if !self.uses_octet(octet) {
                return Ok(Ipv4Addr::new(10, 7, 0, octet));
            }
            octet += 1;
        }
        Err(RoomError::NoAddress)
    }

    /// Tests whether an address of the room ends in an octet.
    fn uses_octet(&self, octet: u8) -> (r: bool)
        ensures
            r == octet_used(self.peers@, octet),
    {
        let mut i: usize = 0;
        while i < self.peers.len()
            invariant
                i <= self.peers@.len(),
                forall|j: int| 0 <= j < i ==> (#[trigger] self.peers@[j]).virtual_ip.d != octet,
            decreases self.peers@.len() - i,
        {
            if self.peers[i].virtual_ip.d == octet {
                assert(self.peers@[i as int].virtual_ip.d == octet);
                return true;
            }
            i += 1;
        }
        false
    }

    /// Join a room as a new peer.
    pub fn join_room(&mut self, public_key: String, node_name: String) -> (r: Result<
        Ipv4Addr,
        RoomError,
    >)
        ensures
            match r {
                Ok(ip) => {
                    &&& join_error(old(self).peers@, public_key@, node_name@) is None
                    &&& ip.a == 10 && ip.b == 7 && ip.c == 0
                    &&& is_next_octet(old(self).peers@, ip.d)
                    &&& final(self).peers@ == old(self).peers@.push(
                        PeerInfo {
                            public_key,
                            virtual_ip: ip,
                            node_name,
                            latency_ms_bits: None,
                            connected: true,
                        },
                    )
                    &&& peers_distinct(old(self).peers@) ==> peers_distinct(final(self).peers@)
                },
                Err(e) => {
                    &&& join_error(old(self).peers@, public_key@, node_name@) == Some(e)
                    &&& final(self).peers@ == old(self).peers@
                },
            },
            final(self).room_code == old(self).room_code,
            final(self).host_public_key == old(self).host_public_key,
            final(self).subnet == old(self).subnet,
            final(self).created_at == old(self).created_at,
    {
        if node_name.as_str().unicode_len() > MAX_NODE_NAME {
            return Err(RoomError::NodeNameTooLong);
        }
        match PublicKey::from_text(public_key.as_str()) {
            Ok(_) => {},
            Err(KeyError::Base64) => {
                return Err(RoomError::KeyNotBase64);
            },
            Err(KeyError::Length(_)) => {
                return Err(RoomError::KeyLength);
            },
        }
        if self.get_peer_by_key(public_key.as_str()).is_some() {
            return Err(RoomError::AlreadyPresent);
        }
        match self.allocate_ip() {
            Ok(ip) => {
                assert(!is_full(self.peers@)) by {
                    assert(!octet_used(self.peers@, ip.d));
                }
                let ghost before = self.peers@;
                self.peers.push(
                    PeerInfo {
                        public_key,
                        virtual_ip: ip,
                        node_name,
                        latency_ms_bits: None,
                        connected: true,
                    },
                );
                proof {
                    if peers_distinct(before) {
                        let after = self.peers@;
                        assert forall|i: int, j: int| 0 <= i < j < after.len() implies (
                        #[trigger] after[i]).virtual_ip != (#[trigger] after[j]).virtual_ip
                            && after[i].public_key@ != after[j].public_key@ by {
                            assert(after[i] == before[i]);
                            if j < before.len() {
                                assert(after[j] == before[j]);
                            }
                        }
                    }
                }
                Ok(ip)
            },
            Err(e) => Err(e),
        }
    }

    /// Remove a peer from the room by their public key.
    pub fn remove_peer(&mut self, public_key: &str) -> (r: Result<(), RoomError>)
        ensures
            final(self).peers@ == without_key(old(self).peers@, public_key@),
            match r {
                Ok(_) => key_present(old(self).peers@, public_key@),
                Err(e) => e is NotFound && !key_present(old(self).peers@, public_key@)
                    && final(self).peers@ == old(self).peers@,
            },
            final(self).room_code == old(self).room_code,
            final(self).host_public_key == old(self).host_public_key,
            final(self).subnet == old(self).subnet,
            final(self).created_at == old(self).created_at,
    {
        let ghost all = self.peers@;
        let ghost mut done: int = 0;
        let mut kept: usize = 0;
        let mut found: bool = false;
        proof {
            reveal(Seq::filter);
            assert(without_key(all.take(0), public_key@) =~= seq![]);
            assert(self.peers@ =~= without_key(all.take(0), public_key@) + all.skip(0));
        }
        while kept < self.peers.len()
            invariant
                0 <= done <= all.len(),
                kept == without_key(all.take(done), public_key@).len(),
                self.peers@ == without_key(all.take(done), public_key@) + all.skip(done),
                found == key_present(all.take(done), public_key@),
                self.room_code == old(self).room_code,
                self.host_public_key == old(self).host_public_key,
                self.subnet == old(self).subnet,
                self.created_at == old(self).created_at,
            decreases all.len() - done,
        {
            let ghost front = without_key(all.take(done), public_key@);
            let ghost next = all.take(done + 1);
            proof {
                reveal(Seq::filter);
                assert(done < all.len());
                assert(next.drop_last() =~= all.take(done));
                assert(next.last() == all[done]);
                assert(self.peers@[kept as int] == all[done]);
            }
            if same_text(self.peers[kept].public_key.as_str(), public_key) {
                self.peers.remove(kept);
                found = true;
                proof {
                    assert(next[done].public_key@ == public_key@);
                    assert(without_key(next, public_key@) =~= front);
                    assert(self.peers@ =~= front + all.skip(done + 1));
                }
            } else {
                kept += 1;
                proof {
                    assert(without_key(next, public_key@) =~= front.push(all[done]));
                    assert(self.peers@ =~= front.push(all[done]) + all.skip(done + 1));
                    if key_present(next, public_key@) {
                        let k = choose|k: int|
                            0 <= k < next.len() && (#[trigger] next[k]).public_key@ == public_key@;
                        assert(k < done);
                        assert(all.take(done)[k].public_key@ == public_key@);
                    }
                    if found {
                        let k = choose|k: int|
                            0 <= k < done && (#[trigger] all.take(done)[k]).public_key@
                                == public_key@;
                        assert(next[k].public_key@ == public_key@);
                    }
                }
            }
            proof {
                done = done + 1;
            }
        }
        proof {
            assert(done == all.len());
            assert(all.take(done) =~= all);
            assert(self.peers@ =~= without_key(all, public_key@));
            if !found {
                lemma_nothing_removed(all, public_key@);
            }
        }
        if found {
            Ok(())
        } else {
            Err(RoomError::NotFound)
        }
    }

    /// Get a reference to a peer by their virtual IP.
    pub fn get_peer_by_ip(&self, ip: &Ipv4Addr) -> (r: Option<&PeerInfo>)
        ensures
            match r {
                Some(p) => exists|i: int| #[trigger]
                    first_at(self.peers@, *ip, i) && self.peers@[i] == *p,
                None => forall|j: int|
                    0 <= j < self.peers@.len() ==> (#[trigger] self.peers@[j]).virtual_ip != *ip,
            },
    {
        let mut i: usize = 0;
        while i < self.peers.len()
            invariant
                i <= self.peers@.len(),
                forall|j: int| 0 <= j < i ==> (#[trigger] self.peers@[j]).virtual_ip != *ip,
            decreases self.peers@.len() - i,
        {
            if self.peers[i].virtual_ip == *ip {
                assert(first_at(self.peers@, *ip, i as int));
                return Some(&self.peers[i]);
            }
            i += 1;
        }
        None
    }

    /// Get a reference to a peer by their public key.
    pub fn get_peer_by_key(&self, public_key: &str) -> (r: Option<&PeerInfo>)
        ensures
            match r {
                Some(p) => exists|i: int|
                    {
                        &&& 0 <= i < self.peers@.len()
                        &&& #[trigger] self.peers@[i] == *p
                        &&& p.public_key@ == public_key@
                        &&& forall|j: int|
                            0 <= j < i ==> (#[trigger] self.peers@[j]).public_key@ != public_key@
                    },
                None => !key_present(self.peers@, public_key@),
            },
    {
        let mut i: usize = 0;
        while i < self.peers.len()
            invariant
                i <= self.peers@.len(),
                forall|j: int| 0 <= j < i ==> (#[trigger] self.peers@[j]).public_key@ != public_key@,
            decreases self.peers@.len() - i,
        {
            if same_text(self.peers[i].public_key.as_str(), public_key) {
                assert(self.peers@[i as int].public_key@ == public_key@);
                return Some(&self.peers[i]);
            }
            i += 1;
        }
        None
    }
}

/// Nobody is removed for a key that nobody has.
proof fn lemma_nothing_removed(peers: Seq<PeerInfo>, key: Seq<char>)
    requires
        !key_present(peers, key),
    ensures
        without_key(peers, key) == peers,
    decreases peers.len(),
{
    reveal(Seq::filter);
    if peers.len() > 0 {
        let front = peers.drop_last();
        assert(peers[peers.len() - 1].public_key@ != key);
        assert forall|i: int| 0 <= i < front.len() implies (#[trigger] front[i]).public_key@
            != key by {
            assert(peers[i].public_key@ != key);
        }
        lemma_nothing_removed(front, key);
        assert(without_key(peers, key) =~= peers);
    }
}

/// The peer at this place of a list is the first at an address.
pub open spec fn first_at(peers: Seq<PeerInfo>, ip: Ipv4Addr, i: int) -> bool {
    &&& 0 <= i < peers.len()
    &&& peers[i].virtual_ip == ip
    &&& forall|j: int| 0 <= j < i ==> (#[trigger] peers[j]).virtual_ip != ip
}

/// How the peers change when the one at an address is gone: whoever has the key of the first
/// peer there is no longer among them. Where nobody is there, nothing changes.
pub open spec fn forgotten(before: Seq<PeerInfo>, after: Seq<PeerInfo>, ip: Ipv4Addr) -> bool {
    &&& forall|i: int| #[trigger]
        first_at(before, ip, i) ==> after == without_key(before, before[i].public_key@)
    &&& (forall|i: int| !#[trigger] first_at(before, ip, i)) ==> after == before
}

impl Room {
    /// Takes out the peer at an address, once its connection is gone: whoever has the key of
    /// the first peer there.
    pub fn drop_peer_at(&mut self, ip: &Ipv4Addr)
        ensures
            forgotten(old(self).peers@, final(self).peers@, *ip),
            final(self).room_code == old(self).room_code,
            final(self).host_public_key == old(self).host_public_key,
            final(self).subnet == old(self).subnet,
            final(self).created_at == old(self).created_at,
    {
        let ghost before = self.peers@;
        let key: Option<String> = match self.get_peer_by_ip(ip) {
            Some(peer) => Some(peer.public_key.clone()),
            None => None,
        };
        proof {
            if key is Some {
                let i = choose|i: int|
                    first_at(before, *ip, i) && before[i].public_key == key->Some_0;
                assert(first_at(before, *ip, i));
                assert forall|k: int| #[trigger] first_at(before, *ip, k) implies k == i by {
                    if k < i {
                        assert(before[k].virtual_ip != *ip);
                    } else if i < k {
                        assert(before[i].virtual_ip != *ip);
                    }
                }
            }
        }
        if let Some(key) = key {
            let _ = self.remove_peer(key.as_str());
        }
    }

    /// The room as a client sees it that has joined: the host, whose key stays out of it, and
    /// the client itself.
    pub fn joined(
        room_code: String,
        public_key: String,
        virtual_ip: Ipv4Addr,
        node_name: String,
    ) -> (r: Room)
        ensures
            r.room_code == room_code,
            r.host_public_key@ == "host-placeholder"@,
            r.peers@.len() == 2,
            r.peers@[0].public_key@ == "host-placeholder"@,
            r.peers@[0].virtual_ip == host_address(),
            r.peers@[0].node_name@ == "Host"@,
            r.peers@[0].latency_ms_bits == Some(0u64),
            r.peers@[0].connected,
            r.peers@[1] == (PeerInfo {
                public_key,
                virtual_ip,
                node_name,
                latency_ms_bits: None,
                connected: true,
            }),
            is_unix_time(r.created_at),
            r.subnet@ == "10.7.0.0/24"@,
    {
        let mut room: Room = Room::with_host(
            room_code,
            unix_time_now(),
            "host-placeholder".to_owned(),
            "Host".to_owned(),
        );
        room.peers.push(
            PeerInfo { public_key, virtual_ip, node_name, latency_ms_bits: None, connected: true },
        );
        room
    }
}

/// Removing whoever has just joined leaves the peers as they were before, so that the address
/// is free again.
pub proof fn law_remove_undoes_join(peers: Seq<PeerInfo>, joined: PeerInfo)
    requires
        !key_present(peers, joined.public_key@),
    ensures
        without_key(peers.push(joined), joined.public_key@) == peers,
{
    let key = joined.public_key@;
    reveal(Seq::filter);
    lemma_nothing_removed(peers, key);
    assert(peers.push(joined).drop_last() =~= peers);
}

/// Removing peers keeps the others apart from one another: no two share an address or a key.
pub proof fn law_remove_keeps_peers_distinct(peers: Seq<PeerInfo>, key: Seq<char>)
    requires
        peers_distinct(peers),
    ensures
        peers_distinct(without_key(peers, key)),
        !key_present(without_key(peers, key), key),
    decreases peers.len(),
{
    reveal(Seq::filter);
    let left = without_key(peers, key);
    if peers.len() > 0 {
        let front = peers.drop_last();
        assert forall|i: int, j: int| 0 <= i < j < front.len() implies (
        #[trigger] front[i]).virtual_ip != (#[trigger] front[j]).virtual_ip
            && front[i].public_key@ != front[j].public_key@ by {
            assert(peers[i].virtual_ip != peers[j].virtual_ip);
        }
        law_remove_keeps_peers_distinct(front, key);
        let rest = without_key(front, key);
        if peers.last().public_key@ != key {
            assert(left =~= rest.push(peers.last()));
            assert forall|i: int, j: int| 0 <= i < j < left.len() implies (
            #[trigger] left[i]).virtual_ip != (#[trigger] left[j]).virtual_ip
                && left[i].public_key@ != left[j].public_key@ by {
                assert(left[i] == rest[i]);
                if j < rest.len() {
                    assert(left[j] == rest[j]);
                } else {
                    lemma_kept_was_there(front, key, i);
                    let k = choose|k: int| 0 <= k < front.len() && front[k] == rest[i];
                    assert(peers[k] == rest[i] && peers[peers.len() - 1] == left[j]);
                    assert(peers[k].virtual_ip != peers[peers.len() - 1].virtual_ip);
                }
            }
            assert forall|i: int| 0 <= i < left.len() implies (#[trigger] left[i]).public_key@
                != key by {
                if i < rest.len() {
                    assert(left[i] == rest[i]);
                }
            }
        } else {
            assert(left =~= rest);
        }
    }
}

/// A lost connection keeps the others apart from one another: no two share an address or a key.
pub proof fn law_forgetting_keeps_peers_distinct(
    before: Seq<PeerInfo>,
    after: Seq<PeerInfo>,
    ip: Ipv4Addr,
)
    requires
        peers_distinct(before),
        forgotten(before, after, ip),
    ensures
        peers_distinct(after),
{
    if exists|i: int| #[trigger] first_at(before, ip, i) {
        let i = choose|i: int| #[trigger] first_at(before, ip, i);
        law_remove_keeps_peers_distinct(before, before[i].public_key@);
    }
}

/// Where no two peers share an address or a key, a lost connection takes its own peer out of the
/// room and nobody else: the address is nobody's afterwards, and all others are still there.
pub proof fn law_forgetting_takes_one_peer(
    before: Seq<PeerInfo>,
    after: Seq<PeerInfo>,
    ip: Ipv4Addr,
    other: PeerInfo,
)
    requires
        peers_distinct(before),
        forgotten(before, after, ip),
    ensures
        after.contains(other) <==> before.contains(other) && other.virtual_ip != ip,
{
    if exists|i: int| #[trigger] first_at(before, ip, i) {
        let i = choose|i: int| #[trigger] first_at(before, ip, i);
        let key = before[i].public_key@;
        broadcast use vstd::seq_lib::group_filter_ensures;

        if after.contains(other) {
            let k = choose|k: int| 0 <= k < after.len() && after[k] == other;
            lemma_kept_was_there(before, key, k);
            let j = choose|j: int| 0 <= j < before.len() && #[trigger] before[j] == after[k];
            assert(other.public_key@ != key);
            if other.virtual_ip == ip {
                assert(j != i);
            }
        }
        if before.contains(other) && other.virtual_ip != ip {
            let j = choose|j: int| 0 <= j < before.len() && before[j] == other;
            assert(j != i);
            assert(before[i].public_key@ != before[j].public_key@);
        }
    } else if before.contains(other) && other.virtual_ip == ip {
        let j = choose|j: int| 0 <= j < before.len() && before[j] == other;
        lemma_first_at(before, ip, j);
    }
}

/// Where somebody is at an address, somebody is the first there.
proof fn lemma_first_at(peers: Seq<PeerInfo>, ip: Ipv4Addr, j: int)
    requires
        0 <= j < peers.len(),
        peers[j].virtual_ip == ip,
    ensures
        exists|i: int| #[trigger] first_at(peers, ip, i),
    decreases j,
{
    if forall|k: int| 0 <= k < j ==> (#[trigger] peers[k]).virtual_ip != ip {
        assert(first_at(peers, ip, j));
    } else {
        let k = choose|k: int| 0 <= k < j && (#[trigger] peers[k]).virtual_ip == ip;
        lemma_first_at(peers, ip, k);
    }
}

/// Whoever is left was there before.
proof fn lemma_kept_was_there(peers: Seq<PeerInfo>, key: Seq<char>, i: int)
    requires
        0 <= i < without_key(peers, key).len(),
    ensures
        exists|k: int| 0 <= k < peers.len() && #[trigger] peers[k] == without_key(peers, key)[i],
    decreases peers.len(),
{
    reveal(Seq::filter);
    let front = peers.drop_last();
    let rest = without_key(front, key);
    if i < rest.len() {
        lemma_kept_was_there(front, key, i);
        let k = choose|k: int| 0 <= k < front.len() && #[trigger] front[k] == rest[i];
        assert(peers[k] == rest[i]);
    } else {
        assert(peers[peers.len() - 1] == without_key(peers, key)[i]);
    }
}

/// A room has room for 253 peers besides its host: it refuses nobody for want of an address
/// while it has fewer.
pub proof fn law_room_capacity(peers: Seq<PeerInfo>)
    requires
        is_full(peers),
    ensures
        peers.len() >= 253,
{
    let octets = peers.map_values(|p: PeerInfo| p.virtual_ip.d as int);
    let range = vstd::set_lib::set_int_range(2, 255);
    vstd::set_lib::lemma_int_range(2, 255);
    assert forall|o: int| range.contains(o) implies octets.to_set().contains(o) by {
        assert(octet_used(peers, o as u8));
        let i = choose|i: int|
            0 <= i < peers.len() && (#[trigger] peers[i]).virtual_ip.d == o as u8;
        assert(octets[i] == o);
    }
    octets.lemma_cardinality_of_set();
    vstd::set_lib::lemma_len_subset(range, octets.to_set());
}

/// Manager for handling the currently active room.
#[derive(Debug)]
pub struct RoomManager {
    pub active_room: Option<Room>,
}

impl Default for RoomManager {
    fn default() -> (r: RoomManager)
        ensures
            r.active_room is None,
    {
        RoomManager::new()
    }
}

impl RoomManager {
    /// A manager without a room.
    pub fn new() -> (r: RoomManager)
        ensures
            r.active_room is None,
    {
        RoomManager { active_room: None }
    }

    /// Makes a room the active one.
    pub fn set_active_room(&mut self, room: Room)
        ensures
            final(self).active_room == Some(room),
    {
        self.active_room = Some(room);
    }

    /// The active room.
    pub fn get_active_room(&self) -> (r: Option<&Room>)
        ensures
            match r {
                Some(room) => self.active_room == Some(*room),
                None => self.active_room is None,
            },
    {
        self.active_room.as_ref()
    }

    /// The active room, to be changed in place.
    pub fn get_active_room_mut(&mut self) -> (r: Option<&mut Room>)
        ensures
            match r {
                Some(room) => old(self).active_room == Some(*room) && final(self).active_room
                    == Some(*final(room)),
                None => old(self).active_room is None && final(self).active_room is None,
            },
    {
        self.active_room.as_mut()
    }

    /// Leaves no room active.
    pub fn clear_active_room(&mut self)
        ensures
            final(self).active_room is None,
    {
        self.active_room = None;
    }
}

/// Who may join a room, and why not: a name has at most 64 characters, a key is base64 of 32 bytes
/// and nobody's yet, and one of the octets from 2 to 254 is free. The first of these that fails is
/// what is answered.
pub proof fn law_who_may_join(
    peers: Seq<PeerInfo>,
    key: Seq<char>,
    name: Seq<char>,
    octet: u8,
    owner: spec_fn(u8) -> int,
)
    ensures
        ({
            let e = join_error(peers, key, name);
            let key_ok = base64_bytes(key) matches Some(bytes) && bytes.len() == 32;
            let present = exists|i: int|
                0 <= i < peers.len() && (#[trigger] peers[i]).public_key@ == key;
            let octet_is_free = 2 <= octet <= 254 && forall|i: int|
                0 <= i < peers.len() ==> (#[trigger] peers[i]).virtual_ip.d != octet;
            let all_are_taken = forall|o: u8|
                2 <= o <= 254 ==> 0 <= #[trigger] owner(o) < peers.len()
                    && peers[owner(o)].virtual_ip.d == o;
            &&& name.len() > 64 <==> e == Some(RoomError::NodeNameTooLong)
            &&& name.len() <= 64 && base64_bytes(key) is None <==> e == Some(
                RoomError::KeyNotBase64,
            )
            &&& name.len() <= 64 && base64_bytes(key) is Some && !key_ok <==> e == Some(
                RoomError::KeyLength,
            )
            &&& name.len() <= 64 && key_ok && present <==> e == Some(RoomError::AlreadyPresent)
            &&& name.len() <= 64 && key_ok && !present && octet_is_free ==> e is None
            &&& name.len() <= 64 && key_ok && !present && all_are_taken ==> e == Some(
                RoomError::NoAddress,
            )
            &&& name.len() <= 64 && key_ok && !present ==> e is None || e == Some(
                RoomError::NoAddress,
            )
        }),
{
    let octet_is_free = 2 <= octet <= 254 && forall|i: int|
        0 <= i < peers.len() ==> (#[trigger] peers[i]).virtual_ip.d != octet;
    let all_are_taken = forall|o: u8|
        2 <= o <= 254 ==> 0 <= #[trigger] owner(o) < peers.len() && peers[owner(o)].virtual_ip.d
            == o;
    if octet_is_free {
        assert(!octet_used(peers, octet));
    }
    if all_are_taken {
        assert forall|o: u8| 2 <= o <= 254 implies #[trigger] octet_used(peers, o) by {
            assert(peers[owner(o)].virtual_ip.d == o);
        }
    }
}

/// The next address is the least that is free: it ends in an octet from 2 to 254 that no peer has,
/// and all octets from 2 up to it are some peer's. So there is only one.
pub proof fn law_next_address_is_the_least(peers: Seq<PeerInfo>, octet: u8, other: u8)
    requires
        is_next_octet(peers, octet),
    ensures
        2 <= octet <= 254,
        forall|i: int| 0 <= i < peers.len() ==> (#[trigger] peers[i]).virtual_ip.d != octet,
        2 <= other < octet ==> exists|i: int|
            0 <= i < peers.len() && (#[trigger] peers[i]).virtual_ip.d == other,
        is_next_octet(peers, other) ==> other == octet,
{
    assert forall|i: int| 0 <= i < peers.len() implies (#[trigger] peers[i]).virtual_ip.d
        != octet by {}
    if 2 <= other < octet {
        assert(octet_used(peers, other));
    }
    if is_next_octet(peers, other) && octet < other {
        assert(octet_used(peers, octet));
    }
}

/// Whoever joins in turn gets the next address in turn: where the peers of a room have the
/// addresses from .1 on, each one, the next gets the one behind them.
pub proof fn law_addresses_are_given_in_turn(peers: Seq<PeerInfo>, octet: u8)
    requires
        1 <= peers.len() <= 253,
        forall|i: int| 0 <= i < peers.len() ==> (#[trigger] peers[i]).virtual_ip.d == i + 1,
        is_next_octet(peers, octet),
    ensures
        octet == peers.len() + 1,
{
    let next = (peers.len() + 1) as u8;
    if octet > next {
        assert(octet_used(peers, next));
    }
    if octet < next {
        assert(peers[octet - 1].virtual_ip.d == octet);
    }
}

/// Removing a key takes out whoever has it and keeps all others, in their order.
pub proof fn law_remove_takes_the_key_out(peers: Seq<PeerInfo>, key: Seq<char>, p: PeerInfo)
    ensures
        without_key(peers, key).contains(p) <==> peers.contains(p) && p.public_key@ != key,
        without_key(peers.push(p), key) == if p.public_key@ == key {
            without_key(peers, key)
        } else {
            without_key(peers, key).push(p)
        },
        without_key(seq![], key).len() == 0,
{
    broadcast use vstd::seq_lib::group_filter_ensures;

    reveal(Seq::filter);
    let left = without_key(peers, key);
    assert(peers.push(p).drop_last() =~= peers);
    if left.contains(p) {
        let k = choose|k: int| 0 <= k < left.len() && left[k] == p;
        lemma_kept_was_there(peers, key, k);
        let j = choose|j: int| 0 <= j < peers.len() && #[trigger] peers[j] == left[k];
        assert(peers.contains(p));
    }
}

/// The host of a room has its first address, 10.7.0.1, and names have at most 64 characters.
pub proof fn law_host_is_at_the_first_address()
    ensures
        host_address() == (Ipv4Addr { a: 10, b: 7, c: 0, d: 1 }),
        MAX_NODE_NAME == 64,
{
}

/// Why a code of another form, or with another character in its groups, is refused: what is not
/// ELYSIUM with two groups of four bytes behind it, and hyphens in between, has not the form; what is,
/// but has something else than letters and digits there, has the wrong characters.
pub proof fn law_why_codes_are_refused(n: Seq<char>, p: Seq<char>, q: Seq<char>)
    requires
        !p.contains('-'),
        !q.contains('-'),
        n == seq!['E', 'L', 'Y', 'S', 'I', 'U', 'M', '-'] + p + seq!['-'] + q,
    ensures
        utf8_len(p) != 4 || utf8_len(q) != 4 ==> code_verdict(n) == Err::<(), RoomCodeError>(
            RoomCodeError::Format,
        ),
        utf8_len(p) == 4 && utf8_len(q) == 4 && (exists|i: int|
            0 <= i < p.len() && !(48 <= #[trigger] p[i] as u32 <= 57 || 65 <= p[i] as u32 <= 90 || 97
                <= p[i] as u32 <= 122)) ==> code_verdict(n) == Err::<(), RoomCodeError>(
            RoomCodeError::InvalidCharacters,
        ),
        utf8_len(p) == 4 && utf8_len(q) == 4 && (exists|i: int|
            0 <= i < q.len() && !(48 <= #[trigger] q[i] as u32 <= 57 || 65 <= q[i] as u32 <= 90 || 97
                <= q[i] as u32 <= 122)) ==> code_verdict(n) == Err::<(), RoomCodeError>(
            RoomCodeError::InvalidCharacters,
        ),
{
    reveal_strlit("ELYSIUM");
    let name = "ELYSIUM"@;
    assert(n =~= name.push('-') + (p.push('-') + q));
    lemma_split_join(name, p.push('-') + q, '-');
    lemma_split_join(p, q, '-');
    lemma_split_one(name, '-');
    lemma_split_one(p, '-');
    lemma_split_one(q, '-');
    let parts = split(n, '-');
    assert(parts =~= seq![name, p, q]);
    if exists|i: int|
        0 <= i < p.len() && !(48 <= #[trigger] p[i] as u32 <= 57 || 65 <= p[i] as u32 <= 90 || 97 <= p[i] as u32
            <= 122) {
        let i = choose|i: int|
            0 <= i < p.len() && !(48 <= #[trigger] p[i] as u32 <= 57 || 65 <= p[i] as u32 <= 90 || 97
                <= p[i] as u32 <= 122);
        assert(!is_alphanumeric(p[i]));
    }
    if exists|i: int|
        0 <= i < q.len() && !(48 <= #[trigger] q[i] as u32 <= 57 || 65 <= q[i] as u32 <= 90 || 97 <= q[i] as u32
            <= 122) {
        let i = choose|i: int|
            0 <= i < q.len() && !(48 <= #[trigger] q[i] as u32 <= 57 || 65 <= q[i] as u32 <= 90 || 97
                <= q[i] as u32 <= 122);
        assert(!is_alphanumeric(q[i]));
    }
}

/// A text with any other beginning has not the form of a code.
pub proof fn law_other_texts_are_no_codes(n: Seq<char>)
    requires
        n.len() < 8 || n.take(8) != seq!['E', 'L', 'Y', 'S', 'I', 'U', 'M', '-'],
    ensures
        code_verdict(n) == Err::<(), RoomCodeError>(RoomCodeError::Format),
{
    reveal_strlit("ELYSIUM");
    let name = "ELYSIUM"@;
    let parts = split(n, '-');
    law_split_is_undone_by_join(n, '-');
    if code_has_form(n) {
        reveal_with_fuel(join, 4);
        assert(parts.drop_last().drop_last()[0] == name);
        assert(n =~= name.push('-') + parts[1].push('-') + parts[2]);
        assert(n.take(8) =~= seq!['E', 'L', 'Y', 'S', 'I', 'U', 'M', '-']);
    }
}

/// Of the peers at an address the first of the list is meant, and there is one if anybody is there.
pub proof fn law_the_first_peer_is_meant(peers: Seq<PeerInfo>, ip: Ipv4Addr, i: int, j: int)
    requires
        0 <= i < peers.len(),
        peers[i].virtual_ip == ip,
        forall|k: int| 0 <= k < i ==> (#[trigger] peers[k]).virtual_ip != ip,
    ensures
        first_at(peers, ip, i),
        first_at(peers, ip, j) ==> j == i,
{
    if first_at(peers, ip, j) {
        if j < i {
            assert(peers[j].virtual_ip != ip);
        } else if i < j {
            assert(peers[i].virtual_ip != ip);
        }
    }
}

/// Whoever has the key of the first peer at an address is gone with its connection, and where nobody
/// is at the address nothing changes.
pub proof fn law_a_lost_connection(
    before: Seq<PeerInfo>,
    after: Seq<PeerInfo>,
    ip: Ipv4Addr,
    i: int,
    p: PeerInfo,
)
    requires
        forgotten(before, after, ip),
    ensures
        (forall|k: int| 0 <= k < before.len() ==> (#[trigger] before[k]).virtual_ip != ip) ==> after
            == before,
        0 <= i < before.len() && before[i].virtual_ip == ip && (forall|k: int|
            0 <= k < i ==> (#[trigger] before[k]).virtual_ip != ip) ==> (after.contains(p)
            <==> before.contains(p) && p.public_key@ != before[i].public_key@),
{
    if forall|k: int| 0 <= k < before.len() ==> (#[trigger] before[k]).virtual_ip != ip {
        assert forall|k: int| !#[trigger] first_at(before, ip, k) by {}
    }
    if 0 <= i < before.len() && before[i].virtual_ip == ip && (forall|k: int|
        0 <= k < i ==> (#[trigger] before[k]).virtual_ip != ip) {
        assert(first_at(before, ip, i));
        law_remove_takes_the_key_out(before, before[i].public_key@, p);
    }
}

/// Where the peers of a room are distinct, any two of them have addresses and keys of their own.
pub proof fn law_distinct_peers(peers: Seq<PeerInfo>, i: int, j: int)
    requires
        peers_distinct(peers),
        0 <= i < peers.len(),
        0 <= j < peers.len(),
        i != j,
    ensures
        peers[i].virtual_ip != peers[j].virtual_ip,
        peers[i].public_key@ != peers[j].public_key@,
{
    if i < j {
        assert(peers[i].virtual_ip != peers[j].virtual_ip);
    } else {
        assert(peers[j].virtual_ip != peers[i].virtual_ip);
    }
}

} // verus!
