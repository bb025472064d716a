//! Tracker announce: percent-encoding, the announce URL, and the compact
//! peers list of the response.

use vstd::prelude::*;
use vstd::string::StringExecFns;
use crate::text::hex_char;
use crate::text::push_char;
use crate::text::spec_decimal;
use crate::text::spec_hex_char;
use crate::text::u64_to_decimal;
use crate::torrent::FileInfo;
use crate::torrent::TorrentData;

verus! {

/// The two uppercase hex digits of `b`, high digit first.
pub open spec fn spec_hex_pair(b: u8) -> Seq<char> {
    seq![spec_hex_char(b as nat / 16), spec_hex_char(b as nat % 16)]
}

/// Percent-encoding of raw bytes: `%XX` with uppercase hex for every byte.
pub open spec fn spec_url_encode(bs: Seq<u8>) -> Seq<char>
    decreases bs.len(),
{
    if bs.len() == 0 {
        Seq::empty()
    } else {
        seq!['%'] + spec_hex_pair(bs.first()) + spec_url_encode(bs.drop_first())
    }
}

/// The value of an uppercase hex digit character; 16 for any other character.
pub open spec fn spec_hex_val(c: char) -> nat {
    if c == '0' {
        0
    } else if c == '1' {
        1
    } else if c == '2' {
        2
    } else if c == '3' {
        3
    } else if c == '4' {
        4
    } else if c == '5' {
        5
    } else if c == '6' {
        6
    } else if c == '7' {
        7
    } else if c == '8' {
        8
    } else if c == '9' {
        9
    } else if c == 'A' {
        10
    } else if c == 'B' {
        11
    } else if c == 'C' {
        12
    } else if c == 'D' {
        13
    } else if c == 'E' {
        14
    } else if c == 'F' {
        15
    } else {
        16
    }
}

/// Percent-decoding: inverse of `spec_url_encode` on well-formed text.
pub open spec fn spec_url_decode(s: Seq<char>) -> Option<Seq<u8>>
    decreases s.len(),
{
    if s.len() == 0 {
        Some(Seq::empty())
    } else if s.len() >= 3 && s[0] == '%' && spec_hex_val(s[1]) < 16 && spec_hex_val(s[2]) < 16 {
        match spec_url_decode(s.skip(3)) {
            Some(rest) => Some(seq![(16 * spec_hex_val(s[1]) + spec_hex_val(s[2])) as u8] + rest),
            None => None,
        }
    } else {
        None
    }
}

/// Every uppercase hex digit decodes back to its value.
proof fn lemma_hex_char_val(d: nat)
    requires
        d < 16,
    ensures
        spec_hex_val(spec_hex_char(d)) == d,
{
}

/// Percent-encoding round-trip: decoding the encoding of any byte string
/// gives the bytes back. In particular every single byte encodes to `%XX`
/// with uppercase hex and decodes to itself.
pub proof fn lemma_url_encode_round_trip(bs: Seq<u8>)
    ensures
        spec_url_decode(spec_url_encode(bs)) == Some(bs),
    decreases bs.len(),
{
    if bs.len() == 0 {
        assert(spec_url_decode(spec_url_encode(bs)) == Some(Seq::<u8>::empty()));
        assert(bs =~= Seq::<u8>::empty());
    } else {
        let b = bs.first();
        let e = spec_url_encode(bs);
        assert(e[0] == '%');
        assert(e[1] == spec_hex_char(b as nat / 16));
        assert(e[2] == spec_hex_char(b as nat % 16));
        lemma_hex_char_val(b as nat / 16);
        lemma_hex_char_val(b as nat % 16);
        assert(e.skip(3) =~= spec_url_encode(bs.drop_first()));
        lemma_url_encode_round_trip(bs.drop_first());
        assert(16 * (b as nat / 16) + (b as nat % 16) == b as nat);
        assert(seq![b] + bs.drop_first() =~= bs);
    }
}

/// The two uppercase hex digits of `*decimal`, high digit first.
pub fn u8_decimal_to_hex(decimal: &u8) -> (r: String)
    ensures
        r@ == spec_hex_pair(*decimal),
{
    let mut hex = String::new();
    push_char(&mut hex, hex_char(*decimal / 16));
    push_char(&mut hex, hex_char(*decimal % 16));
    proof {
        assert(hex@ =~= spec_hex_pair(*decimal));
    }
    hex
}

/// Percent-encodes `bytes[i..]`.
fn encode_from(bytes: &Vec<u8>, i: usize) -> (r: String)
    requires
        i <= bytes@.len(),
    ensures
        r@ == spec_url_encode(bytes@.skip(i as int)),
    decreases bytes@.len() - i,
{
    if i == bytes.len() {
        let s = String::new();
        proof {
            assert(bytes@.skip(i as int) =~= Seq::<u8>::empty());
        }
        s
    } else {
        let mut s = String::new();
        push_char(&mut s, '%');
        let b = bytes[i];
        push_char(&mut s, hex_char(b / 16));
        push_char(&mut s, hex_char(b % 16));
        let rest = encode_from(bytes, i + 1);
        let r = s.concat(rest.as_str());
        proof {
            assert(bytes@.skip(i as int).first() == bytes@[i as int]);
            assert(bytes@.skip(i as int).drop_first() =~= bytes@.skip(i + 1));
            assert(r@ =~= spec_url_encode(bytes@.skip(i as int)));
        }
        r
    }
}

/// Percent-encodes raw bytes for a tracker URL: `%XX`, uppercase, for every
/// byte.
pub fn bytes_to_url(bytes: &Vec<u8>) -> (r: String)
    ensures
        r@ == spec_url_encode(bytes@),
{
    let r = encode_from(bytes, 0);
    proof {
        assert(bytes@.skip(0) =~= bytes@);
    }
    r
}

/// Sum of the file sizes from `files[i]` on.
pub open spec fn spec_total_size_from(files: Seq<FileInfo>, i: int) -> int
    decreases files.len() - i,
{
    if i < 0 || i >= files.len() {
        0
    } else {
        files[i].size + spec_total_size_from(files, i + 1)
    }
}

/// Sum of all file sizes: the `left` value of the first announce.
pub open spec fn spec_total_size(files: Seq<FileInfo>) -> int {
    spec_total_size_from(files, 0)
}

/// File sizes sum to something non-negative.
proof fn lemma_total_size_from_nonneg(files: Seq<FileInfo>, i: int)
    ensures
        spec_total_size_from(files, i) >= 0,
    decreases files.len() - i,
{
    if 0 <= i < files.len() {
        lemma_total_size_from_nonneg(files, i + 1);
    }
}

/// Sum of all file sizes of the torrent.
fn total_file_size(files: &Vec<FileInfo>) -> (t: usize)
    requires
        spec_total_size(files@) <= usize::MAX,
    ensures
        t == spec_total_size(files@),
{
    let mut total: usize = 0;
    let mut i: usize = 0;
    while i < files.len()
        invariant
            0 <= i <= files@.len(),
            total + spec_total_size_from(files@, i as int) == spec_total_size(files@),
            spec_total_size(files@) <= usize::MAX,
        decreases files@.len() - i,
    {
        proof {
            lemma_total_size_from_nonneg(files@, i + 1);
        }
        total = total + files[i].size;
        i += 1;
    }
    total
}

/// The announce URL for the first request of a download:
/// `<announce>?compact=1&downloaded=0&info_hash=<pct>&left=<total>&peer_id=<pct>&port=<n>&uploaded=0`.
pub open spec fn spec_tracker_url(
    tracker: Seq<char>,
    td: TorrentData,
    peer_id: Seq<u8>,
    port: u16,
    info_hash: Seq<u8>,
) -> Seq<char> {
    tracker + "?compact=1&downloaded=0&info_hash="@ + spec_url_encode(info_hash) + "&left="@
        + spec_decimal(spec_total_size(td.files@) as nat) + "&peer_id="@ + spec_url_encode(peer_id)
        + "&port="@ + spec_decimal(port as nat) + "&uploaded=0"@
}

/// Builds the announce URL from the torrent data, the local peer id, the
/// advertised port and the info hash.
pub fn create_tcp_tracker_url(
    tracker: String,
    torrent_data: &TorrentData,
    peer_id: &Vec<u8>,
    port: u16,
    info_hash: &Vec<u8>,
) -> (url: String)
    requires
        spec_total_size(torrent_data.files@) <= usize::MAX,
    ensures
        url@ == spec_tracker_url(tracker@, *torrent_data, peer_id@, port, info_hash@),
{
    let mut url = tracker;
    url.append("?compact=1&downloaded=0&info_hash=");
    let encoded_hash = bytes_to_url(info_hash);
    url.append(encoded_hash.as_str());
    url.append("&left=");
    let total = total_file_size(&torrent_data.files);
    let total_text = u64_to_decimal(total as u64);
    url.append(total_text.as_str());
    url.append("&peer_id=");
    let encoded_id = bytes_to_url(peer_id);
    url.append(encoded_id.as_str());
    url.append("&port=");
    let port_text = u64_to_decimal(port as u64);
    url.append(port_text.as_str());
    url.append("&uploaded=0");
    url
}

/// The `ip:port` text of one 6-byte compact peer entry: four decimal octets
/// and the big-endian port.
pub open spec fn spec_peer_endpoint(b: Seq<u8>) -> Seq<char> {
    spec_decimal(b[0] as nat) + seq!['.'] + spec_decimal(b[1] as nat) + seq!['.'] + spec_decimal(
        b[2] as nat,
    ) + seq!['.'] + spec_decimal(b[3] as nat) + seq![':'] + spec_decimal(
        256 * (b[4] as nat) + b[5] as nat,
    )
}

/// Turns the compact `peers` value of a tracker response into `ip:port`
/// strings, one per 6-byte group, in order.
pub fn parse_compact_peers(peers: &Vec<u8>) -> (r: Vec<String>)
    requires
        peers@.len() % 6 == 0,
    ensures
        r@.len() == peers@.len() / 6,
        forall|k: int|
            0 <= k < r@.len() ==> (#[trigger] r@[k])@ == spec_peer_endpoint(
                peers@.subrange(6 * k, 6 * k + 6),
            ),
{
    let mut r: Vec<String> = Vec::new();
    let mut base: usize = 0;
    while base < peers.len()
        invariant
            peers@.len() % 6 == 0,
            base == 6 * r@.len(),
            base <= peers@.len(),
            forall|j: int|
                0 <= j < r@.len() ==> (#[trigger] r@[j])@ == spec_peer_endpoint(
                    peers@.subrange(6 * j, 6 * j + 6),
                ),
        decreases peers@.len() - base,
    {
        let ghost k = r@.len() as int;
        proof {
            assert(base % 6 == 0) by (nonlinear_arith)
                requires
                    base == 6 * r@.len(),
            ;
            assert((peers@.len() - base) % 6 == 0);
            assert(peers@.len() - base >= 6);
        }
        let mut s = u64_to_decimal(peers[base] as u64);
        push_char(&mut s, '.');
        let octet1 = u64_to_decimal(peers[base + 1] as u64);
        s.append(octet1.as_str());
        push_char(&mut s, '.');
        let octet2 = u64_to_decimal(peers[base + 2] as u64);
        s.append(octet2.as_str());
        push_char(&mut s, '.');
        let octet3 = u64_to_decimal(peers[base + 3] as u64);
        s.append(octet3.as_str());
        push_char(&mut s, ':');
        let port: u32 = (peers[base + 4] as u32) * 256 + (peers[base + 5] as u32);
        let port_text = u64_to_decimal(port as u64);
        s.append(port_text.as_str());
        let ghost group = peers@.subrange(6 * k, 6 * k + 6);
        proof {
            assert(6 * k == base);
            assert(group[0] == peers@[base as int]);
            assert(group[1] == peers@[base + 1]);
            assert(group[2] == peers@[base + 2]);
            assert(group[3] == peers@[base + 3]);
            assert(group[4] == peers@[base + 4]);
            assert(group[5] == peers@[base + 5]);
            assert(s@ =~= spec_peer_endpoint(group));
        }
        r.push(s);
        base = base + 6;
    }
    proof {
        vstd::arithmetic::div_mod::lemma_div_multiples_vanish(r@.len() as int, 6);
    }
    r
}

} // verus!
