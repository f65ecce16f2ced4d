//! The local database: the device facts its name and key derive from, the
//! key derivation itself, locating its file, and decoding its rows.
use vstd::prelude::*;

use crate::crypto::{
    base64_encode, base64_standard, hex_encode, hex_lower, hmac_sha256, hmac_sha256_tag,
    lemma_base64_standard_len, lemma_hex_lower_len, sha1, sha1_digest, sha256, sha256_digest,
    sha512, sha512_digest,
};
use vstd::utf8::{encode_utf8, is_char_boundary};
use crate::text::{
    decimal, push_decimal,
    chars_of, chars_equal, contains, contains_chars, copy_range, ends_with_chars,
    has_prefix, has_suffix, lines, lines_of, parse_i64, parse_i64_spec, push_signed_decimal,
    lemma_signed_decimal_parses_back, signed_decimal, split, split_chars, starts_with_chars, string_of, trim, trim_chars,
    utf8_len_at_least, views,
};

verus! {

/// A chat room as listed from the local database.
#[derive(Debug, Clone)]
pub struct LocalChat {
    pub chat_id: i64,
    pub chat_type: i32,
    pub chat_name: String,
    pub active_members_count: i32,
    pub last_log_id: i64,
    pub last_updated_at: i64,
    pub unread_count: i64,
    pub display_name: String,
}

/// A message as read from the local database.
#[derive(Debug, Clone)]
pub struct LocalMessage {
    pub log_id: i64,
    pub chat_id: i64,
    pub author_id: i64,
    pub sender_name: String,
    pub message: String,
    pub message_type: i32,
    pub sent_at: i64,
}

/// What the diagnostics learned about access to the local database.
#[derive(Debug, Clone)]
pub struct LocalDbStatus {
    pub uuid_available: bool,
    pub user_id_available: bool,
    pub container_exists: bool,
    pub db_file_found: bool,
    pub db_path: Option<String>,
    pub decryptable: bool,
}

/// The string in an optional column, or the empty string.
pub open spec fn text_or_empty(s: Option<String>) -> Seq<char> {
    match s {
        Some(t) => t@,
        None => seq![],
    }
}

fn string_or_empty(s: Option<String>) -> (r: String)
    ensures
        r@ == text_or_empty(s),
{
    match s {
        Some(t) => t,
        None => String::new(),
    }
}

impl LocalChat {
    /// Builds a chat from the columns of a chat-room row; a column that
    /// could not be read is `None` and counts as empty or zero. The chat's
    /// title is its own name, or the other member's display name when the
    /// chat has none.
    pub fn from_columns(
        chat_id: i64,
        chat_type: i32,
        chat_name: Option<String>,
        active_members_count: Option<i32>,
        last_log_id: Option<i64>,
        last_updated_at: Option<i64>,
        unread_count: Option<i64>,
        display_name: Option<String>,
    ) -> (c: LocalChat)
        ensures
            c.chat_id == chat_id,
            c.chat_type == chat_type,
            c.chat_name@ == (if text_or_empty(chat_name).len() == 0 {
                text_or_empty(display_name)
            } else {
                text_or_empty(chat_name)
            }),
            c.display_name@ == text_or_empty(display_name),
            c.active_members_count == active_members_count.unwrap_or(0),
            c.last_log_id == last_log_id.unwrap_or(0),
            c.last_updated_at == last_updated_at.unwrap_or(0),
            c.unread_count == unread_count.unwrap_or(0),
    {
        let name = string_or_empty(chat_name);
        let display = string_or_empty(display_name);
        let title = if name.as_str().is_empty() {
            display.clone()
        } else {
            name
        };
        LocalChat {
            chat_id,
            chat_type,
            chat_name: title,
            active_members_count: active_members_count.unwrap_or(0),
            last_log_id: last_log_id.unwrap_or(0),
            last_updated_at: last_updated_at.unwrap_or(0),
            unread_count: unread_count.unwrap_or(0),
            display_name: display,
        }
    }
}

impl LocalMessage {
    /// Builds a message from the columns of a message row; a column that
    /// could not be read is `None` and counts as empty or zero.
    pub fn from_columns(
        log_id: i64,
        chat_id: i64,
        author_id: Option<i64>,
        sender_name: Option<String>,
        message: Option<String>,
        message_type: Option<i32>,
        sent_at: Option<i64>,
    ) -> (m: LocalMessage)
        ensures
            m.log_id == log_id,
            m.chat_id == chat_id,
            m.author_id == author_id.unwrap_or(0),
            m.sender_name@ == text_or_empty(sender_name),
            m.message@ == text_or_empty(message),
            m.message_type == message_type.unwrap_or(0),
            m.sent_at == sent_at.unwrap_or(0),
    {
        LocalMessage {
            log_id,
            chat_id,
            author_id: author_id.unwrap_or(0),
            sender_name: string_or_empty(sender_name),
            message: string_or_empty(message),
            message_type: message_type.unwrap_or(0),
            sent_at: sent_at.unwrap_or(0),
        }
    }
}

impl LocalDbStatus {
    /// The facts hang together: a database path is known only once both the
    /// device UUID and the user id were read, the file counts as found
    /// exactly when its path is known, and only a found file is decryptable.
    pub open spec fn consistent(self) -> bool {
        &&& self.db_file_found == self.db_path.is_some()
        &&& self.decryptable ==> self.db_file_found
        &&& self.db_file_found ==> self.uuid_available && self.user_id_available
    }

    /// The status from the individual probes. A database path counts only
    /// when the UUID and the user id probes both succeeded (the database is
    /// not looked up otherwise); the file is decryptable only when it was
    /// found and opening it with the derived key succeeded.
    pub fn from_probes(
        uuid_available: bool,
        user_id_available: bool,
        container_exists: bool,
        db_path: Option<String>,
        opened: bool,
    ) -> (st: LocalDbStatus)
        ensures
            st.consistent(),
            st.uuid_available == uuid_available,
            st.user_id_available == user_id_available,
            st.container_exists == container_exists,
            st.db_path == (if uuid_available && user_id_available {
                db_path
            } else {
                None
            }),
            st.decryptable == (st.db_file_found && opened),
    {
        let db_path = if uuid_available && user_id_available {
            db_path
        } else {
            None
        };
        let found = db_path.is_some();
        LocalDbStatus {
            uuid_available,
            user_id_available,
            container_exists,
            db_file_found: found,
            db_path,
            decryptable: found && opened,
        }
    }
}

/// The `LIKE` pattern that finds `query` anywhere in a message.
pub fn like_pattern(query: &str) -> (p: String)
    ensures
        p@ == "%"@ + query@ + "%"@,
{
    let mut p = String::new();
    p.append("%");
    p.append(query);
    p.append("%");
    p
}

/// The parameters of the message query: the chat, the optional lower bound
/// on the send time, and the row limit (as SQLite's signed integer).
pub fn message_query_params(chat_id: i64, limit: usize, since_ts: Option<i64>) -> (params: Vec<
    i64,
>)
    ensures
        params@ == (match since_ts {
            Some(ts) => seq![chat_id, ts, limit as i64],
            None => seq![chat_id, limit as i64],
        }),
{
    let mut params: Vec<i64> = Vec::new();
    params.push(chat_id);
    match since_ts {
        Some(ts) => params.push(ts),
        None => {},
    }
    params.push(limit as i64);
    params
}

/// The character sequences of a list of strings.
pub open spec fn string_views(v: Seq<String>) -> Seq<Seq<char>> {
    v.map_values(|s: String| s@)
}

/// `t` is a run of characters that `s` ends with.
pub open spec fn is_suffix(t: Seq<char>, s: Seq<char>) -> bool {
    t.len() <= s.len() && s.skip(s.len() - t.len()) == t
}

/// `t` ends every string of `strs`.
pub open spec fn is_common_suffix(strs: Seq<Seq<char>>, t: Seq<char>) -> bool {
    forall|i: int| 0 <= i < strs.len() ==> #[trigger] is_suffix(t, strs[i])
}

/// Every string of `strs` has at least `i + 1` characters, and the `i`-th
/// character from the end is the same in all of them.
pub open spec fn agree_from_end(strs: Seq<Seq<char>>, i: int) -> bool {
    forall|q: int|
        0 <= q < strs.len() ==> i < #[trigger] strs[q].len() && strs[q][strs[q].len() - 1 - i]
            == strs[0][strs[0].len() - 1 - i]
}

/// The length of the shared tail of `strs`, counting on from position `i`
/// from the end.
pub open spec fn shared_tail_len(strs: Seq<Seq<char>>, i: nat) -> nat
    decreases strs[0].len() - i,
{
    if strs.len() > 0 && i < strs[0].len() && agree_from_end(strs, i as int) {
        shared_tail_len(strs, i + 1)
    } else {
        i
    }
}

/// The longest shared tail of `strs`, when there are strings and it is not
/// empty.
pub open spec fn longest_common_suffix_spec(strs: Seq<Seq<char>>) -> Option<Seq<char>> {
    if strs.len() == 0 {
        None
    } else {
        let k = shared_tail_len(strs, 0);
        if k == 0 {
            None
        } else {
            Some(strs[0].skip(strs[0].len() - k))
        }
    }
}

/// The longest run of characters that every string of `strings` ends with;
/// `None` when there are no strings or they share no last character.
pub fn longest_common_suffix(strings: &[String]) -> (r: Option<String>)
    ensures
        match r {
            None => {
                &&& longest_common_suffix_spec(string_views(strings@)) is None
                &&& (strings@.len() == 0 || forall|t: Seq<char>|
                    is_common_suffix(string_views(strings@), t) ==> t.len() == 0)
            },
            Some(t) => {
                &&& longest_common_suffix_spec(string_views(strings@)) == Some(t@)
                &&& strings@.len() > 0
                &&& t@.len() > 0
                &&& is_common_suffix(string_views(strings@), t@)
                &&& forall|t2: Seq<char>|
                    is_common_suffix(string_views(strings@), t2) ==> t2.len() <= t@.len()
            },
        },
{
    if strings.len() == 0 {
        return None;
    }
    let ghost strs = string_views(strings@);
    let n = strings.len();
    let mut chars: Vec<Vec<char>> = Vec::new();
    let mut j: usize = 0;
    while j < n
        invariant
            n == strings@.len(),
            strs == string_views(strings@),
            j <= n,
            chars@.len() == j,
            forall|k: int| 0 <= k < j ==> #[trigger] chars@[k]@ == strs[k],
        decreases n - j,
    {
        chars.push(chars_of(strings[j].as_str()));
        j = j + 1;
    }
    let mut min_len = chars[0].len();
    let mut j: usize = 1;
    while j < n
        invariant
            n == chars@.len(),
            1 <= j <= n,
            forall|k: int| 0 <= k < j ==> min_len <= #[trigger] chars@[k]@.len(),
            exists|k: int| 0 <= k < n && min_len == #[trigger] chars@[k]@.len(),
        decreases n - j,
    {
        if chars[j].len() < min_len {
            min_len = chars[j].len();
        }
        j = j + 1;
    }
    let ghost s0 = strs[0];
    let len0 = chars[0].len();
    let mut common: usize = 0;
    let mut mismatch = false;
    assert(min_len <= chars@[0]@.len());
    assert forall|q: int| 0 <= q < strs.len() implies #[trigger] is_suffix(
        s0.skip(len0 - 0),
        strs[q],
    ) by {
        assert(strs[q].skip(strs[q].len() - 0) =~= s0.skip(len0 - 0));
    }
    while common < min_len && !mismatch
        invariant
            n == chars@.len(),
            n == strs.len(),
            n > 0,
            forall|k: int| 0 <= k < n ==> #[trigger] chars@[k]@ == strs[k],
            forall|k: int| 0 <= k < n ==> min_len <= #[trigger] chars@[k]@.len(),
            exists|k: int| 0 <= k < n && min_len == #[trigger] chars@[k]@.len(),
            s0 == strs[0],
            len0 == s0.len(),
            len0 == chars@[0]@.len(),
            min_len <= len0,
            common <= min_len,
            is_common_suffix(strs, s0.skip(len0 - common)),
            mismatch ==> forall|t: Seq<char>|
                is_common_suffix(strs, t) ==> t.len() <= common,
            shared_tail_len(strs, 0) == shared_tail_len(strs, common as nat),
            mismatch ==> shared_tail_len(strs, common as nat) == common,
        decreases min_len - common + (if mismatch { 0int } else { 1int }),
    {
        let ch = chars[0][len0 - 1 - common];
        let mut k: usize = 0;
        let mut all_same = true;
        while k < n
            invariant
                n == chars@.len(),
                forall|q: int| 0 <= q < n ==> min_len <= #[trigger] chars@[q]@.len(),
                common < min_len,
                k <= n,
                all_same == (forall|q: int|
                    0 <= q < k ==> #[trigger] chars@[q]@[chars@[q]@.len() - 1 - common] == ch),
                !all_same ==> exists|q: int|
                    0 <= q < k && #[trigger] chars@[q]@[chars@[q]@.len() - 1 - common] != ch,
            decreases n - k,
        {
            let r = &chars[k];
            if r[r.len() - 1 - common] != ch {
                all_same = false;
            }
            k = k + 1;
        }
        if all_same {
            proof {
                let t = s0.skip(len0 - (common + 1));
                assert forall|q: int| 0 <= q < strs.len() implies #[trigger] is_suffix(t, strs[q]) by {
                    let sq = strs[q];
                    assert(chars@[q]@ == sq);
                    let told = s0.skip(len0 - common);
                    assert(is_suffix(told, sq));
                    assert(sq[sq.len() - 1 - common] == ch);
                    assert(sq.skip(sq.len() - t.len()) =~= t) by {
                        assert forall|x: int| 0 <= x < t.len() implies sq.skip(sq.len() - t.len())[x]
                            == t[x] by {
                            if x > 0 {
                                assert(told[x - 1] == sq.skip(sq.len() - told.len())[x - 1]);
                            }
                        }
                    }
                }
            }
            proof {
                assert(agree_from_end(strs, common as int)) by {
                    assert forall|q: int| 0 <= q < strs.len() implies common < #[trigger] strs[q].len()
                        && strs[q][strs[q].len() - 1 - common] == strs[0][strs[0].len() - 1
                        - common] by {
                        assert(chars@[q]@ == strs[q]);
                        assert(chars@[0]@ == strs[0]);
                    }
                }
            }
            common = common + 1;
        } else {
            proof {
                let q = choose|q: int|
                    0 <= q < n && #[trigger] chars@[q]@[chars@[q]@.len() - 1 - common] != ch;
                assert forall|t: Seq<char>| is_common_suffix(strs, t) implies t.len() <= common by {
                    if t.len() > common {
                        assert(is_suffix(t, strs[0]));
                        assert(is_suffix(t, strs[q]));
                        let x = t.len() - 1 - common;
                        assert(t[x] == s0.skip(s0.len() - t.len())[x]);
                        assert(t[x] == strs[q].skip(strs[q].len() - t.len())[x]);
                    }
                }
            }
            proof {
                let q = choose|q: int|
                    0 <= q < n && #[trigger] chars@[q]@[chars@[q]@.len() - 1 - common] != ch;
                assert(chars@[q]@ == strs[q]);
                assert(!agree_from_end(strs, common as int));
            }
            mismatch = true;
        }
    }
    proof {
        if !mismatch {
            let k = choose|k: int| 0 <= k < n && min_len == #[trigger] chars@[k]@.len();
            assert(chars@[k]@ == strs[k]);
            if common < strs[0].len() {
                assert(!(common < strs[k].len()));
                assert(!agree_from_end(strs, common as int));
            }
        }
    }
    proof {
        if !mismatch {
            assert forall|t: Seq<char>| is_common_suffix(strs, t) implies t.len() <= common by {
                let k = choose|k: int| 0 <= k < n && min_len == #[trigger] chars@[k]@.len();
                assert(is_suffix(t, strs[k]));
            }
        }
    }
    if common == 0 {
        return None;
    }
    let tail = copy_range(chars[0].as_slice(), len0 - common, len0);
    assert(tail@ == s0.skip(len0 - common));
    Some(string_of(tail.as_slice()))
}

/// Counting on from position `i`, the shared tail of `strs` reaches a point
/// where the strings stop agreeing or the first one ends.
proof fn lemma_shared_tail_len(strs: Seq<Seq<char>>, i: nat)
    requires
        strs.len() > 0,
        i <= strs[0].len(),
        forall|j: int| 0 <= j < i ==> agree_from_end(strs, j),
    ensures
        i <= shared_tail_len(strs, i) <= strs[0].len(),
        forall|j: int| 0 <= j < shared_tail_len(strs, i) ==> agree_from_end(strs, j),
        shared_tail_len(strs, i) == strs[0].len() || !agree_from_end(
            strs,
            shared_tail_len(strs, i) as int,
        ),
    decreases strs[0].len() - i,
{
    if i < strs[0].len() && agree_from_end(strs, i as int) {
        lemma_shared_tail_len(strs, i + 1);
    }
}

/// `longest_common_suffix_spec` is the longest non-empty run of characters
/// that ends every string, and `None` when there is none.
pub proof fn lemma_longest_common_suffix_spec(strs: Seq<Seq<char>>)
    ensures
        match longest_common_suffix_spec(strs) {
            Some(t) => t.len() > 0 && is_common_suffix(strs, t) && forall|t2: Seq<char>|
                is_common_suffix(strs, t2) ==> t2.len() <= t.len(),
            None => strs.len() == 0 || forall|t2: Seq<char>|
                is_common_suffix(strs, t2) ==> t2.len() == 0,
        },
{
    if strs.len() > 0 {
        lemma_shared_tail_len(strs, 0);
        let k = shared_tail_len(strs, 0);
        let s0 = strs[0];
        let t = s0.skip(s0.len() - k);
        assert forall|q: int| 0 <= q < strs.len() implies #[trigger] is_suffix(t, strs[q]) by {
            let sq = strs[q];
            if k > 0 {
                assert(agree_from_end(strs, (k - 1) as int));
                assert(k <= sq.len());
            }
            assert(sq.skip(sq.len() - k) =~= t) by {
                assert forall|x: int| 0 <= x < k implies sq.skip(sq.len() - k)[x] == t[x] by {
                    let j = k - 1 - x;
                    assert(agree_from_end(strs, j));
                }
            }
        }
        assert forall|t2: Seq<char>| is_common_suffix(strs, t2) implies t2.len() <= k by {
            if t2.len() > k {
                assert(is_suffix(t2, s0));
                assert(k < s0.len());
                assert(agree_from_end(strs, k as int)) by {
                    assert forall|q: int| 0 <= q < strs.len() implies k < #[trigger] strs[q].len()
                        && strs[q][strs[q].len() - 1 - k] == strs[0][strs[0].len() - 1 - k] by {
                        assert(is_suffix(t2, strs[q]));
                        let x = t2.len() - 1 - k;
                        assert(t2[x] == strs[q].skip(strs[q].len() - t2.len())[x]);
                        assert(t2[x] == s0.skip(s0.len() - t2.len())[x]);
                    }
                }
            }
        }
    }
}

/// The longest common suffix depends only on which strings there are: two
/// lists holding the same strings, in any order and number, give the same
/// result.
pub proof fn lemma_longest_common_suffix_same_strings(a: Seq<Seq<char>>, b: Seq<Seq<char>>)
    requires
        forall|x: Seq<char>| a.contains(x) <==> b.contains(x),
    ensures
        longest_common_suffix_spec(a) == longest_common_suffix_spec(b),
{
    lemma_longest_common_suffix_spec(a);
    lemma_longest_common_suffix_spec(b);
    assert forall|t: Seq<char>| is_common_suffix(a, t) <==> is_common_suffix(b, t) by {
        if is_common_suffix(a, t) {
            assert forall|q: int| 0 <= q < b.len() implies #[trigger] is_suffix(t, b[q]) by {
                assert(b.contains(b[q]));
                let p = choose|p: int| 0 <= p < a.len() && a[p] == b[q];
                assert(is_suffix(t, a[p]));
            }
        }
        if is_common_suffix(b, t) {
            assert forall|q: int| 0 <= q < a.len() implies #[trigger] is_suffix(t, a[q]) by {
                assert(a.contains(a[q]));
                let p = choose|p: int| 0 <= p < b.len() && b[p] == a[q];
                assert(is_suffix(t, b[p]));
            }
        }
    }
    if a.len() == 0 {
        if b.len() > 0 {
            assert(b.contains(b[0]));
        }
    }
    if b.len() == 0 {
        if a.len() > 0 {
            assert(a.contains(a[0]));
        }
    }
    match (longest_common_suffix_spec(a), longest_common_suffix_spec(b)) {
        (Some(t), Some(u)) => {
            assert(t.len() == u.len());
            assert(a.contains(a[0]));
            assert(is_suffix(t, a[0]));
            assert(is_suffix(u, a[0]));
            assert(t =~= u);
        },
        _ => {},
    }
}

/// Reordering the strings leaves the longest common suffix unchanged.
pub proof fn lemma_longest_common_suffix_permutation(a: Seq<Seq<char>>, b: Seq<Seq<char>>)
    requires
        a.to_multiset() == b.to_multiset(),
    ensures
        longest_common_suffix_spec(a) == longest_common_suffix_spec(b),
{
    assert forall|x: Seq<char>| a.contains(x) <==> b.contains(x) by {
        vstd::seq_lib::to_multiset_contains(a, x);
        vstd::seq_lib::to_multiset_contains(b, x);
    }
    lemma_longest_common_suffix_same_strings(a, b);
}

// ---------------------------------------------------------------------------
// PBKDF2-HMAC-SHA256
// ---------------------------------------------------------------------------

/// The four big-endian bytes of a block index.
pub open spec fn be32(i: int) -> Seq<u8> {
    seq![
        ((i / 0x1000000) % 256) as u8,
        ((i / 0x10000) % 256) as u8,
        ((i / 0x100) % 256) as u8,
        (i % 256) as u8,
    ]
}

/// `U_j` of block `block`: `U_1 = PRF(P, S || INT(block))`,
/// `U_j = PRF(P, U_{j-1})`.
pub open spec fn pbkdf2_u(p: Seq<u8>, s: Seq<u8>, block: int, j: nat) -> Seq<u8>
    decreases j,
{
    if j <= 1 {
        hmac_sha256_tag(p, s + be32(block))
    } else {
        hmac_sha256_tag(p, pbkdf2_u(p, s, block, (j - 1) as nat))
    }
}

/// `a` with each of its first `b.len()` bytes XORed with the byte of `b`
/// at the same place.
pub open spec fn xor_into(a: Seq<u8>, b: Seq<u8>) -> Seq<u8> {
    Seq::new(a.len(), |i: int| if i < b.len() { a[i] ^ b[i] } else { a[i] })
}

/// `T_block = U_1 ^ ... ^ U_c`, with at least one term.
pub open spec fn pbkdf2_f(p: Seq<u8>, s: Seq<u8>, block: int, c: nat) -> Seq<u8>
    decreases c,
{
    if c <= 1 {
        pbkdf2_u(p, s, block, 1)
    } else {
        xor_into(pbkdf2_f(p, s, block, (c - 1) as nat), pbkdf2_u(p, s, block, c))
    }
}

/// `T_1 || ... || T_n`.
pub open spec fn pbkdf2_blocks(p: Seq<u8>, s: Seq<u8>, c: nat, n: nat) -> Seq<u8>
    decreases n,
{
    if n == 0 {
        seq![]
    } else {
        pbkdf2_blocks(p, s, c, (n - 1) as nat) + pbkdf2_f(p, s, n as int, c)
    }
}

/// The number of 32-byte blocks for `key_len` bytes, kept as a `u32`.
pub open spec fn pbkdf2_block_count(key_len: nat) -> nat {
    (((key_len + 31) / 32) as u32) as nat
}

/// PBKDF2-HMAC-SHA256 of password `p` and salt `s` with `c` iterations,
/// cut to `key_len` bytes.
pub open spec fn pbkdf2_sha256_spec(p: Seq<u8>, s: Seq<u8>, c: nat, key_len: nat) -> Seq<u8> {
    let full = pbkdf2_blocks(p, s, c, pbkdf2_block_count(key_len));
    if full.len() > key_len {
        full.take(key_len as int)
    } else {
        full
    }
}

/// One PBKDF2 block, `T_block`.
fn pbkdf2_block(password: &[u8], salt: &[u8], iterations: u32, block: u32) -> (t: Vec<u8>)
    ensures
        t@ == pbkdf2_f(password@, salt@, block as int, iterations as nat),
        t@.len() == 32,
{
    let mut msg = vstd::slice::slice_to_vec(salt);
    msg.push((block / 0x1000000) as u8);
    msg.push(((block / 0x10000) % 256) as u8);
    msg.push(((block / 0x100) % 256) as u8);
    msg.push((block % 256) as u8);
    assert(msg@ == salt@ + be32(block as int));
    let mut u = hmac_sha256(password, msg.as_slice());
    let mut result = vstd::slice::slice_to_vec(u.as_slice());
    let mut k: u32 = 1;
    while k < iterations
        invariant
            1 <= k,
            k <= iterations || iterations == 0,
            k == 1 || k <= iterations,
            u@ == pbkdf2_u(password@, salt@, block as int, k as nat),
            result@ == pbkdf2_f(password@, salt@, block as int, k as nat),
            u@.len() == 32,
            result@.len() == 32,
        decreases iterations - k,
    {
        u = hmac_sha256(password, u.as_slice());
        let ghost before = result@;
        let mut i: usize = 0;
        while i < result.len()
            invariant
                result@.len() == 32,
                u@.len() == 32,
                before.len() == 32,
                i <= 32,
                forall|q: int| 0 <= q < i ==> result@[q] == before[q] ^ u@[q],
                forall|q: int| i <= q < 32 ==> result@[q] == before[q],
            decreases 32 - i,
        {
            let x = result[i] ^ u[i];
            result.set(i, x);
            i = i + 1;
        }
        k = k + 1;
        assert(result@ =~= xor_into(before, u@));
    }
    result
}

/// `n` whole blocks are enough for `key_len` bytes, and one fewer is not.
proof fn lemma_block_count_covers(key_len: nat)
    ensures
        32 * ((key_len + 31) / 32) >= key_len,
        32 * ((key_len + 31) / 32) < key_len + 32,
{
    let n = (key_len + 31) / 32;
    assert(32 * n <= key_len + 31 && key_len + 31 < 32 * n + 32) by (nonlinear_arith)
        requires
            n == (key_len + 31) / 32,
    ;
}

/// PBKDF2-HMAC-SHA256 of `password` and `salt` with `iterations` rounds,
/// `key_len` bytes long (for any length whose block count fits a `u32`).
/// A shorter key is the start of a longer one: for every `k <= key_len`,
/// the key of length `k` is the first `k` bytes of this one.
pub fn pbkdf2_sha256(password: &[u8], salt: &[u8], iterations: u32, key_len: usize) -> (out: Vec<
    u8,
>)
    ensures
        out@ == pbkdf2_sha256_spec(password@, salt@, iterations as nat, key_len as nat),
        (key_len + 31) / 32 <= u32::MAX ==> out@.len() == key_len,
        (key_len + 31) / 32 <= u32::MAX ==> forall|k: nat|
            k <= key_len ==> #[trigger] pbkdf2_sha256_spec(password@, salt@, iterations as nat, k)
                == out@.take(k as int),
{
    let blocks: usize = key_len / 32 + if key_len % 32 != 0 {
        1
    } else {
        0
    };
    assert(blocks == (key_len + 31) / 32);
    let count: u32 = blocks as u32;
    let ghost pw = password@;
    let ghost sl = salt@;
    let ghost c = iterations as nat;
    let mut output: Vec<u8> = Vec::new();
    let mut b: u64 = 1;
    while b <= count as u64
        invariant
            1 <= b <= count as u64 + 1,
            pw == password@,
            sl == salt@,
            c == iterations as nat,
            output@ == pbkdf2_blocks(pw, sl, c, (b - 1) as nat),
            output@.len() == 32 * (b - 1),
            forall|j: nat|
                j <= b - 1 ==> #[trigger] pbkdf2_blocks(pw, sl, c, j) == output@.take(32 * j as int),
        decreases count as u64 + 1 - b,
    {
        let mut t = pbkdf2_block(password, salt, iterations, b as u32);
        let ghost before = output@;
        output.append(&mut t);
        assert forall|j: nat| j <= b implies #[trigger] pbkdf2_blocks(pw, sl, c, j) == output@.take(
            32 * j as int,
        ) by {
            if j < b {
                assert(output@.take(32 * j as int) =~= before.take(32 * j as int));
            } else {
                assert(output@.take(32 * j as int) =~= output@);
            }
        }
        b = b + 1;
    }
    assert(count as nat == pbkdf2_block_count(key_len as nat));
    let ghost full = output@;
    output.truncate(key_len);
    proof {
        if (key_len + 31) / 32 <= u32::MAX {
            lemma_block_count_covers(key_len as nat);
            assert(output@ =~= full.take(key_len as int));
            assert forall|k: nat| k <= key_len implies #[trigger] pbkdf2_sha256_spec(
                pw,
                sl,
                c,
                k,
            ) == output@.take(k as int) by {
                lemma_block_count_covers(k);
                let n = (k + 31) / 32;
                assert(n <= count) by (nonlinear_arith)
                    requires
                        k <= key_len,
                        n == (k + 31) / 32,
                        count == (key_len + 31) / 32,
                ;
                assert(pbkdf2_block_count(k) == n);
                assert(pbkdf2_blocks(pw, sl, c, n) == full.take(32 * n as int));
                assert(output@.take(k as int) =~= full.take(k as int));
                assert(full.take(32 * n as int).take(k as int) =~= full.take(k as int));
            }
        }
    }
    output
}

// ---------------------------------------------------------------------------
// Key derivation
// ---------------------------------------------------------------------------

/// The number of PBKDF2 rounds behind the database name and key.
pub const KEY_DERIVATION_ROUNDS: u32 = 100_000;

/// The length, in bytes, of the PBKDF2 output behind the database name and key.
pub const DERIVED_KEY_LEN: usize = 128;

/// Base64 (standard, padded) of the SHA-1 digest followed by the SHA-256
/// digest of the UTF-8 bytes of `uuid`.
pub open spec fn hashed_device_uuid_spec(uuid: Seq<char>) -> Seq<char> {
    base64_standard(sha1_digest(encode_utf8(uuid)) + sha256_digest(encode_utf8(uuid)))
}

/// The device UUID hashed as the local database expects it:
/// `base64(SHA1(uuid) || SHA256(uuid))`.
pub fn hashed_device_uuid(uuid: &str) -> (h: String)
    ensures
        h@ == hashed_device_uuid_spec(uuid@),
        h@.len() == 72,
{
    let bytes = uuid.as_bytes();
    let mut combined = sha1(bytes);
    let mut tail = sha256(bytes);
    combined.append(&mut tail);
    proof {
        lemma_base64_standard_len(combined@);
    }
    base64_encode(combined.as_slice())
}

/// The characters of `s` in reverse order.
fn reversed(s: &str) -> (r: String)
    ensures
        r@ == s@.reverse(),
{
    let chars = chars_of(s);
    let mut out = String::new();
    let mut i = chars.len();
    while i > 0
        invariant
            i <= chars@.len(),
            chars@ == s@,
            out@ == s@.reverse().take(s@.len() - i),
        decreases i,
    {
        i = i - 1;
        out.push(chars[i]);
        assert(out@ =~= s@.reverse().take(s@.len() - i));
    }
    assert(s@.reverse().take(s@.len() as int) == s@.reverse());
    out
}

/// The file name of the local database: characters 28..106 of the hex of
/// `PBKDF2(P, S, 100000, 128)` where `P` is `"..F.<user_id>.A.F.<reversed
/// uuid>..|"` and `S` the reversed hashed device UUID.
pub open spec fn database_name_spec(user_id: int, uuid: Seq<char>) -> Seq<char> {
    let password = "..F."@ + signed_decimal(user_id) + ".A.F."@ + uuid.reverse() + "..|"@;
    let salt = hashed_device_uuid_spec(uuid).reverse();
    let derived = pbkdf2_sha256_spec(encode_utf8(password), encode_utf8(salt), 100_000, 128);
    hex_lower(derived).subrange(28, 106)
}

/// Derives the local database's file name from the user id and device UUID.
pub fn derive_database_name(user_id: i64, uuid: &str) -> (name: String)
    ensures
        name@ == database_name_spec(user_id as int, uuid@),
        name@.len() == 78,
{
    let mut password = String::new();
    password.append("..F.");
    push_signed_decimal(&mut password, user_id);
    password.append(".A.F.");
    let rev = reversed(uuid);
    password.append(rev.as_str());
    password.append("..|");
    let hashed = hashed_device_uuid(uuid);
    let salt = reversed(hashed.as_str());
    let derived = pbkdf2_sha256(
        password.as_str().as_bytes(),
        salt.as_str().as_bytes(),
        KEY_DERIVATION_ROUNDS,
        DERIVED_KEY_LEN,
    );
    let hex = hex_encode(derived.as_slice());
    proof {
        lemma_hex_lower_len(derived@);
    }
    let hex_chars = chars_of(hex.as_str());
    let middle = copy_range(hex_chars.as_slice(), 28, 106);
    string_of(middle.as_slice())
}

/// The database name to look for when checking access: known only once both
/// the device UUID and the user id are; `None` when either is missing.
pub fn db_lookup_name(uuid: Option<&str>, user_id: Option<i64>) -> (r: Option<String>)
    ensures
        match (uuid, user_id) {
            (Some(u), Some(id)) => r is Some && r.unwrap()@ == database_name_spec(id as int, u@),
            _ => r is None,
        },
{
    match (uuid, user_id) {
        (Some(u), Some(id)) => Some(derive_database_name(id, u)),
        _ => None,
    }
}

/// The database name's PBKDF2 password carries the whole user id: it is
/// `"..F." + d + ".A.F." + reversed UUID + "..|"` for a piece `d` that reads
/// back as exactly this `i64` (as `i64::to_string` writes it), so ids beyond
/// any narrower integer type still name their own database.
pub proof fn lemma_database_name_holds_whole_user_id(user_id: i64, uuid: Seq<char>)
    ensures
        exists|d: Seq<char>|
            #![trigger parse_i64_spec(d)]
            parse_i64_spec(d) == Some(user_id) && database_name_spec(user_id as int, uuid)
                == hex_lower(
                pbkdf2_sha256_spec(
                    encode_utf8("..F."@ + d + ".A.F."@ + uuid.reverse() + "..|"@),
                    encode_utf8(hashed_device_uuid_spec(uuid).reverse()),
                    100_000,
                    128,
                ),
            ).subrange(28, 106),
{
    lemma_signed_decimal_parses_back(user_id);
    let d = signed_decimal(user_id as int);
    assert(parse_i64_spec(d) == Some(user_id));
}

/// The first `n` characters of `s` (all of them when shorter).
pub open spec fn take_chars(s: Seq<char>, n: int) -> Seq<char> {
    if s.len() <= n {
        s
    } else {
        s.take(n)
    }
}

/// `s` without its first `n` characters (empty when shorter).
pub open spec fn skip_chars(s: Seq<char>, n: int) -> Seq<char> {
    if s.len() <= n {
        seq![]
    } else {
        s.skip(n)
    }
}

/// The byte offset, 30% into the UTF-8 bytes of `uuid` (rounded down),
/// where the key's salt starts.
pub open spec fn salt_offset(uuid: Seq<char>) -> int {
    (encode_utf8(uuid).len() * 3 / 10) as int
}

/// The SQLCipher key of the local database: the hex of
/// `PBKDF2(P, S, 100000, 128)` where `P` is the reverse of the pieces `A`,
/// the hashed device UUID, `|`, `F`, the UUID's first five characters, `H`,
/// the user id, `|` and the UUID after its seventh character, joined with
/// `F`; and `S` is the UTF-8 bytes of `uuid` from 30% of their length on.
pub open spec fn secure_key_spec(user_id: int, uuid: Seq<char>) -> Seq<char> {
    let hashed = hashed_device_uuid_spec(uuid);
    let joined = "A"@ + "F"@ + hashed + "F"@ + "|"@ + "F"@ + "F"@ + "F"@ + take_chars(uuid, 5)
        + "F"@ + "H"@ + "F"@ + signed_decimal(user_id) + "F"@ + "|"@ + "F"@ + skip_chars(uuid, 7);
    let salt = encode_utf8(uuid).skip(salt_offset(uuid));
    hex_lower(pbkdf2_sha256_spec(encode_utf8(joined.reverse()), salt, 100_000, 128))
}

/// The SQLCipher key's PBKDF2 password carries the whole user id: it is the
/// reverse of `A F <hashed UUID> F | F F F <first five> F H F d F | F <rest>`
/// for a piece `d` that reads back as exactly this `i64` (as
/// `i64::to_string` writes it), never a narrowed value.
pub proof fn lemma_secure_key_holds_whole_user_id(user_id: i64, uuid: Seq<char>)
    ensures
        exists|d: Seq<char>|
            #![trigger parse_i64_spec(d)]
            parse_i64_spec(d) == Some(user_id) && secure_key_spec(user_id as int, uuid)
                == hex_lower(
                pbkdf2_sha256_spec(
                    encode_utf8(
                        ("A"@ + "F"@ + hashed_device_uuid_spec(uuid) + "F"@ + "|"@ + "F"@ + "F"@
                            + "F"@ + take_chars(uuid, 5) + "F"@ + "H"@ + "F"@ + d + "F"@ + "|"@
                            + "F"@ + skip_chars(uuid, 7)).reverse(),
                    ),
                    encode_utf8(uuid).skip(salt_offset(uuid)),
                    100_000,
                    128,
                ),
            ),
{
    lemma_signed_decimal_parses_back(user_id);
    let d = signed_decimal(user_id as int);
    assert(parse_i64_spec(d) == Some(user_id));
}

/// Derives the local database's SQLCipher key from the user id and device
/// UUID. The salt starts 30% into the UUID's bytes, which must fall on a
/// character boundary.
pub fn derive_secure_key(user_id: i64, uuid: &str) -> (key: String)
    requires
        is_char_boundary(encode_utf8(uuid@), salt_offset(uuid@)),
    ensures
        key@ == secure_key_spec(user_id as int, uuid@),
        key@.len() == 256,
{
    let hashed = hashed_device_uuid(uuid);
    let chars = chars_of(uuid);
    let n = chars.len();
    let prefix = copy_range(chars.as_slice(), 0, if n < 5 { n } else { 5 });
    let rest = copy_range(chars.as_slice(), if n < 7 { n } else { 7 }, n);
    let mut joined = String::new();
    joined.append("A");
    joined.append("F");
    joined.append(hashed.as_str());
    joined.append("F");
    joined.append("|");
    joined.append("F");
    joined.append("F");
    joined.append("F");
    let prefix_s = string_of(prefix.as_slice());
    joined.append(prefix_s.as_str());
    joined.append("F");
    joined.append("H");
    joined.append("F");
    push_signed_decimal(&mut joined, user_id);
    joined.append("F");
    joined.append("|");
    joined.append("F");
    let rest_s = string_of(rest.as_slice());
    joined.append(rest_s.as_str());
    proof {
        if n <= 5 {
            assert(prefix@ =~= uuid@);
        } else {
            assert(prefix@ =~= uuid@.take(5));
        }
        if n <= 7 {
            assert(rest@ =~= Seq::<char>::empty());
        } else {
            assert(rest@ =~= uuid@.skip(7));
        }
        assert(prefix@ == take_chars(uuid@, 5));
        assert(rest@ == skip_chars(uuid@, 7));
    }
    let password = reversed(joined.as_str());
    let bytes = uuid.as_bytes();
    let len = bytes.len();
    let offset = len / 10 * 3 + (len % 10) * 3 / 10;
    assert(offset == len * 3 / 10);
    let salt = vstd::slice::slice_subrange(bytes, offset, bytes.len());
    let derived = pbkdf2_sha256(
        password.as_str().as_bytes(),
        salt,
        KEY_DERIVATION_ROUNDS,
        DERIVED_KEY_LEN,
    );
    proof {
        lemma_hex_lower_len(derived@);
    }
    hex_encode(derived.as_slice())
}

// ---------------------------------------------------------------------------
// Device information
// ---------------------------------------------------------------------------

/// The platform UUID that an `ioreg` line offers: on a line that names
/// `IOPlatformUUID`, the fourth `"`-separated piece, trimmed, when it is at
/// least 36 bytes long.
pub open spec fn uuid_on_line(line: Seq<char>) -> Option<Seq<char>> {
    if contains(line, "IOPlatformUUID"@) && split(line, '"').len() >= 4 {
        let u = trim(split(line, '"')[3]);
        if encode_utf8(u).len() >= 36 {
            Some(u)
        } else {
            None
        }
    } else {
        None
    }
}

/// The UUID offered by the first line of `ls` that offers one.
pub open spec fn first_uuid(ls: Seq<Seq<char>>) -> Option<Seq<char>>
    decreases ls.len(),
{
    if ls.len() == 0 {
        None
    } else {
        match uuid_on_line(ls[0]) {
            Some(u) => Some(u),
            None => first_uuid(ls.drop_first()),
        }
    }
}

/// The view of an optional string.
pub open spec fn opt_view(s: Option<String>) -> Option<Seq<char>> {
    match s {
        Some(t) => Some(t@),
        None => None,
    }
}

/// Picks the `IOPlatformUUID` out of the output of
/// `ioreg -rd1 -c IOPlatformExpertDevice`.
pub fn platform_uuid_from_ioreg(stdout: &str) -> (r: Option<String>)
    ensures
        opt_view(r) == first_uuid(lines(stdout@)),
{
    let chars = chars_of(stdout);
    let ls = lines_of(chars.as_slice());
    let key = chars_of("IOPlatformUUID");
    let mut i: usize = 0;
    assert(views(ls@).skip(0) == views(ls@));
    while i < ls.len()
        invariant
            i <= ls@.len(),
            key@ == "IOPlatformUUID"@,
            first_uuid(lines(stdout@)) == first_uuid(views(ls@).skip(i as int)),
        decreases ls@.len() - i,
    {
        let line = &ls[i];
        let ghost rest = views(ls@).skip(i as int);
        assert(rest[0] == line@);
        assert(rest.drop_first() == views(ls@).skip(i + 1));
        if contains_chars(line.as_slice(), key.as_slice()) {
            let parts = split_chars(line.as_slice(), '"');
            assert(views(parts@).len() == parts@.len());
            if parts.len() >= 4 {
                assert(views(parts@)[3] == parts@[3]@);
                let u = trim_chars(parts[3].as_slice());
                if utf8_len_at_least(u.as_slice(), 36) {
                    return Some(string_of(u.as_slice()));
                }
            }
        }
        i = i + 1;
    }
    assert(views(ls@).skip(i as int) =~= Seq::<Seq<char>>::empty());
    None
}

/// A value of a property-list dictionary, as far as the lookups read it: an
/// integer that fits `i64`, a string, or anything else.
#[derive(Debug, Clone, PartialEq)]
pub enum PlistValue {
    SignedInteger(i64),
    Text(String),
    Other,
}

/// The mathematical form of a [`PlistValue`].
pub enum PlistValueView {
    SignedInteger(i64),
    Text(Seq<char>),
    Other,
}

impl View for PlistValue {
    type V = PlistValueView;

    open spec fn view(&self) -> PlistValueView {
        match self {
            PlistValue::SignedInteger(n) => PlistValueView::SignedInteger(*n),
            PlistValue::Text(s) => PlistValueView::Text(s@),
            PlistValue::Other => PlistValueView::Other,
        }
    }
}

/// One key of a property-list dictionary with its value.
#[derive(Debug, Clone, PartialEq)]
pub struct PlistEntry {
    pub key: String,
    pub value: PlistValue,
}

impl View for PlistEntry {
    type V = (Seq<char>, PlistValueView);

    open spec fn view(&self) -> (Seq<char>, PlistValueView) {
        (self.key@, self.value@)
    }
}

/// The views of a list of entries.
pub open spec fn entry_views(entries: Seq<PlistEntry>) -> Seq<(Seq<char>, PlistValueView)> {
    entries.map_values(|e: PlistEntry| e@)
}

/// What parsing `bytes` as a property list whose top level is a dictionary
/// gives: its entries in order, or the parser's error message.
pub uninterp spec fn plist_parse(bytes: Seq<u8>) -> Result<Seq<(Seq<char>, PlistValueView)>, Seq<char>>;

/// `plist::from_bytes::<plist::Dictionary>`: the entries of the dictionary
/// in order, each value read as an `i64` integer, a string, or neither; or
/// the parser's error, shown as text. Which bytes parse to what is not
/// written out here.
#[verifier::external_body]
pub(crate) fn parse_plist_entries(bytes: &[u8]) -> (r: Result<Vec<PlistEntry>, String>)
    ensures
        match r {
            Ok(es) => plist_parse(bytes@) == Ok::<Seq<(Seq<char>, PlistValueView)>, Seq<char>>(entry_views(es@)),
            Err(e) => plist_parse(bytes@) == Err::<Seq<(Seq<char>, PlistValueView)>, Seq<char>>(e@),
        },
{
    match plist::from_bytes::<plist::Dictionary>(bytes) {
        Ok(d) => Ok(d.iter().map(|(k, v)| PlistEntry { key: k.clone(), value: match v {
            plist::Value::Integer(i) => i.as_signed().map_or(PlistValue::Other, PlistValue::SignedInteger),
            plist::Value::String(t) => PlistValue::Text(t.clone()),
            _ => PlistValue::Other,
        } }).collect()),
        Err(e) => Err(e.to_string()),
    }
}

/// The suffixes after `prefix` of the keys that begin with it and are
/// longer, in key order.
pub open spec fn key_suffixes(entries: Seq<(Seq<char>, PlistValueView)>, prefix: Seq<char>) -> Seq<
    Seq<char>,
>
    decreases entries.len(),
{
    if entries.len() == 0 {
        seq![]
    } else {
        let rest = key_suffixes(entries.drop_last(), prefix);
        let k = entries.last().0;
        if has_prefix(k, prefix) && k.len() > prefix.len() {
            rest.push(k.skip(prefix.len() as int))
        } else {
            rest
        }
    }
}

/// The key prefix whose suffixes carry `chatId` followed by `userId`.
pub open spec fn transparency_prefix() -> Seq<char> {
    "FSChatWindowTransparency"@
}

/// The key prefix whose suffix is exactly the `userId`.
pub open spec fn frame_prefix() -> Seq<char> {
    "FSChatWindowFrame_"@
}

/// The key prefix whose suffix is the SHA-512 hash of the `userId`.
pub open spec fn revision_prefix() -> Seq<char> {
    "DESIGNATEDFRIENDSREVISION:"@
}

/// The value stored under `key` (the first entry with that key).
pub open spec fn lookup(entries: Seq<(Seq<char>, PlistValueView)>, key: Seq<char>) -> Option<
    PlistValueView,
>
    decreases entries.len(),
{
    if entries.len() == 0 {
        None
    } else if entries[0].0 == key {
        Some(entries[0].1)
    } else {
        lookup(entries.drop_first(), key)
    }
}

/// A user id read directly from a value: an integer, or a string that
/// parses as one.
pub open spec fn direct_user_id(v: Option<PlistValueView>) -> Option<i64> {
    match v {
        Some(PlistValueView::SignedInteger(n)) => Some(n),
        Some(PlistValueView::Text(s)) => parse_i64_spec(s),
        _ => None,
    }
}

/// The user id from the shared tail of the transparency keys, when there are
/// at least two of them and the tail parses as an integer.
pub open spec fn user_id_from_suffixes(entries: Seq<(Seq<char>, PlistValueView)>) -> Option<i64> {
    let sfx = key_suffixes(entries, transparency_prefix());
    if sfx.len() >= 2 {
        match longest_common_suffix_spec(sfx) {
            Some(c) => parse_i64_spec(c),
            None => None,
        }
    } else {
        None
    }
}

/// Every item of `f` equals the first.
pub open spec fn all_same(f: Seq<Seq<char>>) -> bool {
    forall|i: int| 0 <= i < f.len() ==> #[trigger] f[i] == f[0]
}

/// The user id from the `FSChatWindowFrame_` keys: trusted only when there
/// is at least one and all their suffixes are the same, parsing as an
/// integer.
pub open spec fn user_id_from_frames(entries: Seq<(Seq<char>, PlistValueView)>) -> Option<i64> {
    let f = key_suffixes(entries, frame_prefix());
    if f.len() > 0 && all_same(f) {
        parse_i64_spec(f[0])
    } else {
        None
    }
}

/// The user id that a preferences dictionary yields: first from the shared
/// tail of the `FSChatWindowTransparency` keys, then from the keys `userId`,
/// `user_id`, `KAKAO_USER_ID` and `userID`, in that order, then from the
/// exact suffix of the `FSChatWindowFrame_` keys.
pub open spec fn user_id_spec(entries: Seq<(Seq<char>, PlistValueView)>) -> Option<i64> {
    let a = user_id_from_suffixes(entries);
    let b1 = direct_user_id(lookup(entries, "userId"@));
    let b2 = direct_user_id(lookup(entries, "user_id"@));
    let b3 = direct_user_id(lookup(entries, "KAKAO_USER_ID"@));
    let b4 = direct_user_id(lookup(entries, "userID"@));
    if a is Some {
        a
    } else if b1 is Some {
        b1
    } else if b2 is Some {
        b2
    } else if b3 is Some {
        b3
    } else if b4 is Some {
        b4
    } else {
        user_id_from_frames(entries)
    }
}

/// The keys that may hold the user id directly, in the order they are tried.
pub open spec fn direct_id_keys() -> Seq<Seq<char>> {
    seq!["userId"@, "user_id"@, "KAKAO_USER_ID"@, "userID"@]
}

/// The value a dictionary stores under a key it holds at `at` (the first
/// entry with that key).
proof fn lemma_lookup_at(es: Seq<(Seq<char>, PlistValueView)>, key: Seq<char>, at: int)
    requires
        0 <= at < es.len(),
        es[at].0 == key,
        forall|i: int| 0 <= i < at ==> es[i].0 != key,
    ensures
        lookup(es, key) == Some(es[at].1),
    decreases es.len(),
{
    if at > 0 {
        lemma_lookup_at(es.drop_first(), key, at - 1);
    }
}

/// Nothing is stored under a key the dictionary does not hold.
proof fn lemma_lookup_absent(es: Seq<(Seq<char>, PlistValueView)>, key: Seq<char>)
    requires
        forall|i: int| 0 <= i < es.len() ==> es[i].0 != key,
    ensures
        lookup(es, key) is None,
    decreases es.len(),
{
    if es.len() > 0 {
        lemma_lookup_absent(es.drop_first(), key);
    }
}

/// With no key starting with `prefix`, there are no suffixes after it.
proof fn lemma_key_suffixes_none(es: Seq<(Seq<char>, PlistValueView)>, prefix: Seq<char>)
    requires
        forall|i: int| 0 <= i < es.len() ==> !has_prefix(#[trigger] es[i].0, prefix),
    ensures
        key_suffixes(es, prefix).len() == 0,
    decreases es.len(),
{
    if es.len() > 0 {
        lemma_key_suffixes_none(es.drop_last(), prefix);
    }
}

/// A value that cannot be read as a user id.
pub open spec fn unusable_id(v: PlistValueView) -> bool {
    &&& !(v is SignedInteger)
    &&& !(v matches PlistValueView::Text(t) && parse_i64_spec(t) is Some)
}

/// A key the dictionary holds only with a value that is no user id, or not
/// at all, gives nothing.
proof fn lemma_direct_key_gives_nothing(es: Seq<(Seq<char>, PlistValueView)>, key: Seq<char>)
    requires
        forall|i: int, j: int| 0 <= i < j < es.len() ==> es[i].0 != es[j].0,
        forall|i: int| 0 <= i < es.len() && es[i].0 == key ==> unusable_id(es[i].1),
    ensures
        direct_user_id(lookup(es, key)) is None,
{
    if exists|i: int| 0 <= i < es.len() && es[i].0 == key {
        let at = choose|i: int| 0 <= i < es.len() && es[i].0 == key;
        lemma_lookup_at(es, key, at);
    } else {
        lemma_lookup_absent(es, key);
    }
}

/// The direct keys are tried in the order `userId`, `user_id`,
/// `KAKAO_USER_ID`, `userID`: in a dictionary without
/// `FSChatWindowTransparency` keys, where the keys before the `k`-th hold no
/// usable value (or are missing) and the `k`-th holds the integer `v` (or a
/// string that reads as `v`), the user id is `v`.
pub proof fn lemma_user_id_direct_key_order(
    entries: Seq<(Seq<char>, PlistValueView)>,
    k: int,
    at: int,
    v: i64,
)
    requires
        0 <= k < 4,
        forall|i: int, j: int| 0 <= i < j < entries.len() ==> entries[i].0 != entries[j].0,
        forall|i: int|
            0 <= i < entries.len() ==> !has_prefix(#[trigger] entries[i].0, "FSChatWindowTransparency"@),
        forall|j: int, i: int|
            0 <= j < k && 0 <= i < entries.len() && entries[i].0 == direct_id_keys()[j]
                ==> unusable_id(entries[i].1),
        0 <= at < entries.len(),
        entries[at].0 == direct_id_keys()[k],
        (entries[at].1 matches PlistValueView::SignedInteger(n) && n == v) || (
        entries[at].1 matches PlistValueView::Text(t) && parse_i64_spec(t) == Some(v)),
    ensures
        user_id_spec(entries) == Some(v),
{
    lemma_key_suffixes_none(entries, transparency_prefix());
    assert(user_id_from_suffixes(entries) is None);
    let keys = direct_id_keys();
    assert forall|j: int| 0 <= j < k implies direct_user_id(#[trigger] lookup(entries, keys[j])) is None by {
        lemma_direct_key_gives_nothing(entries, keys[j]);
    }
    lemma_lookup_at(entries, keys[k], at);
    if k == 0 {
        assert(lookup(entries, keys[0]) == lookup(entries, "userId"@));
    } else if k == 1 {
        assert(direct_user_id(lookup(entries, keys[0])) is None);
    } else if k == 2 {
        assert(direct_user_id(lookup(entries, keys[0])) is None);
        assert(direct_user_id(lookup(entries, keys[1])) is None);
    } else {
        assert(direct_user_id(lookup(entries, keys[0])) is None);
        assert(direct_user_id(lookup(entries, keys[1])) is None);
        assert(direct_user_id(lookup(entries, keys[2])) is None);
    }
}

pub(crate) fn lookup_entry<'a>(entries: &'a [PlistEntry], key: &str) -> (r: Option<&'a PlistValue>)
    ensures
        match r {
            Some(v) => lookup(entry_views(entries@), key@) == Some(v@),
            None => lookup(entry_views(entries@), key@) is None,
        },
{
    let k = chars_of(key);
    let mut i: usize = 0;
    let ghost ev = entry_views(entries@);
    assert(ev.skip(0) == ev);
    while i < entries.len()
        invariant
            i <= entries@.len(),
            k@ == key@,
            ev == entry_views(entries@),
            lookup(ev, key@) == lookup(ev.skip(i as int), key@),
        decreases entries@.len() - i,
    {
        assert(ev.skip(i as int).drop_first() == ev.skip(i + 1));
        assert(ev.skip(i as int)[0] == entries@[i as int]@);
        let ek = chars_of(entries[i].key.as_str());
        if chars_equal(ek.as_slice(), k.as_slice()) {
            return Some(&entries[i].value);
        }
        i = i + 1;
    }
    None
}

fn direct_user_id_of(v: Option<&PlistValue>) -> (r: Option<i64>)
    ensures
        r == direct_user_id(
            match v {
                Some(x) => Some(x@),
                None => None,
            },
        ),
{
    match v {
        Some(PlistValue::SignedInteger(n)) => Some(*n),
        Some(PlistValue::Text(s)) => {
            let c = chars_of(s.as_str());
            parse_i64(c.as_slice())
        },
        _ => None,
    }
}

/// The suffixes after `prefix` of the keys that begin with it and are longer.
fn key_suffixes_of(entries: &[PlistEntry], prefix: &str) -> (r: Vec<String>)
    ensures
        string_views(r@) == key_suffixes(entry_views(entries@), prefix@),
{
    let p = chars_of(prefix);
    let ghost ev = entry_views(entries@);
    let mut out: Vec<String> = Vec::new();
    let mut i: usize = 0;
    while i < entries.len()
        invariant
            i <= entries@.len(),
            p@ == prefix@,
            ev == entry_views(entries@),
            string_views(out@) == key_suffixes(ev.take(i as int), prefix@),
        decreases entries@.len() - i,
    {
        let k = chars_of(entries[i].key.as_str());
        let ghost before = out@;
        assert(ev.take(i + 1).drop_last() == ev.take(i as int));
        assert(ev.take(i + 1).last() == entries@[i as int]@);
        if starts_with_chars(k.as_slice(), p.as_slice()) && k.len() > p.len() {
            let tail = copy_range(k.as_slice(), p.len(), k.len());
            out.push(string_of(tail.as_slice()));
            assert(string_views(out@) =~= string_views(before).push(tail@));
        }
        i = i + 1;
    }
    assert(ev.take(entries@.len() as int) == ev);
    out
}

/// The user id from the `FSChatWindowFrame_` keys, when they all agree.
fn user_id_from_frames_of(entries: &[PlistEntry]) -> (r: Option<i64>)
    ensures
        r == user_id_from_frames(entry_views(entries@)),
{
    let f = key_suffixes_of(entries, "FSChatWindowFrame_");
    let ghost fv = string_views(f@);
    if f.len() == 0 {
        assert(fv.len() == 0);
        return None;
    }
    let first = chars_of(f[0].as_str());
    let mut i: usize = 1;
    while i < f.len()
        invariant
            1 <= i <= f@.len(),
            fv == string_views(f@),
            fv == key_suffixes(entry_views(entries@), frame_prefix()),
            first@ == fv[0],
            forall|q: int| 0 <= q < i ==> #[trigger] fv[q] == fv[0],
        decreases f@.len() - i,
    {
        let c = chars_of(f[i].as_str());
        if !chars_equal(c.as_slice(), first.as_slice()) {
            assert(fv[i as int] != fv[0]);
            assert(!all_same(fv));
            return None;
        }
        i = i + 1;
    }
    parse_i64(first.as_slice())
}

/// Reads the KakaoTalk user id out of a preferences dictionary.
pub fn user_id_from_plist_entries(entries: &[PlistEntry]) -> (r: Option<i64>)
    ensures
        r == user_id_spec(entry_views(entries@)),
{
    let suffixes = key_suffixes_of(entries, "FSChatWindowTransparency");
    let mut a: Option<i64> = None;
    if suffixes.len() >= 2 {
        assert(string_views(suffixes@).len() == suffixes@.len());
        match longest_common_suffix(suffixes.as_slice()) {
            Some(common) => {
                let c = chars_of(common.as_str());
                a = parse_i64(c.as_slice());
            },
            None => {},
        }
    }
    if a.is_some() {
        return a;
    }
    let b1 = direct_user_id_of(lookup_entry(entries, "userId"));
    if b1.is_some() {
        return b1;
    }
    let b2 = direct_user_id_of(lookup_entry(entries, "user_id"));
    if b2.is_some() {
        return b2;
    }
    let b3 = direct_user_id_of(lookup_entry(entries, "KAKAO_USER_ID"));
    if b3.is_some() {
        return b3;
    }
    let b4 = direct_user_id_of(lookup_entry(entries, "userID"));
    if b4.is_some() {
        return b4;
    }
    user_id_from_frames_of(entries)
}

/// Reads the KakaoTalk user id out of the bytes of a preferences file;
/// `None` when they do not parse as a dictionary or hold no usable id.
pub fn user_id_from_plist_bytes(bytes: &[u8]) -> (r: Option<i64>)
    ensures
        r == match plist_parse(bytes@) {
            Ok(es) => user_id_spec(es),
            Err(_) => None,
        },
{
    match parse_plist_entries(bytes) {
        Ok(es) => user_id_from_plist_entries(es.as_slice()),
        Err(_) => None,
    }
}

/// The revision hash that an entry offers: a `DESIGNATEDFRIENDSREVISION:`
/// key with a hash after the prefix and an integer revision as its value.
pub open spec fn revision_of(e: (Seq<char>, PlistValueView)) -> Option<(Seq<char>, i64)> {
    if has_prefix(e.0, revision_prefix()) && e.0.len() > revision_prefix().len() {
        match e.1 {
            PlistValueView::SignedInteger(r) => Some((e.0.skip(revision_prefix().len() as int), r)),
            _ => None,
        }
    } else {
        None
    }
}

/// The hash of the active account: the one with the highest integer
/// revision (the first of equal ones), with its revision.
pub open spec fn best_revision(entries: Seq<(Seq<char>, PlistValueView)>) -> Option<(Seq<char>, i64)>
    decreases entries.len(),
{
    if entries.len() == 0 {
        None
    } else {
        let rest = best_revision(entries.drop_last());
        match revision_of(entries.last()) {
            Some((h, r)) => match rest {
                Some((h0, r0)) => if r > r0 {
                    Some((h, r))
                } else {
                    rest
                },
                None => Some((h, r)),
            },
            None => rest,
        }
    }
}

/// The active account's revision hash, to search the user id by.
pub open spec fn revision_hash_spec(entries: Seq<(Seq<char>, PlistValueView)>) -> Option<Seq<char>> {
    match best_revision(entries) {
        Some((h, _)) => Some(h),
        None => None,
    }
}

fn revision_hash_of(entries: &[PlistEntry]) -> (r: Option<String>)
    ensures
        opt_view(r) == revision_hash_spec(entry_views(entries@)),
{
    let p = chars_of("DESIGNATEDFRIENDSREVISION:");
    let ghost ev = entry_views(entries@);
    let mut best: Option<(String, i64)> = None;
    let mut i: usize = 0;
    while i < entries.len()
        invariant
            i <= entries@.len(),
            p@ == revision_prefix(),
            ev == entry_views(entries@),
            match best {
                Some((h, r)) => best_revision(ev.take(i as int)) == Some((h@, r)),
                None => best_revision(ev.take(i as int)) is None,
            },
        decreases entries@.len() - i,
    {
        assert(ev.take(i + 1).drop_last() == ev.take(i as int));
        assert(ev.take(i + 1).last() == entries@[i as int]@);
        let k = chars_of(entries[i].key.as_str());
        if starts_with_chars(k.as_slice(), p.as_slice()) && k.len() > p.len() {
            match &entries[i].value {
                PlistValue::SignedInteger(r) => {
                    let better = match &best {
                        Some((_, r0)) => *r > *r0,
                        None => true,
                    };
                    if better {
                        let tail = copy_range(k.as_slice(), p.len(), k.len());
                        best = Some((string_of(tail.as_slice()), *r));
                    }
                },
                _ => {},
            }
        }
        i = i + 1;
    }
    assert(ev.take(entries@.len() as int) == ev);
    match best {
        Some((h, _)) => Some(h),
        None => None,
    }
}

/// The active account's revision hash in the bytes of a preferences file,
/// for the search by [`search_user_id`] when no user id was found directly.
pub fn revision_hash_from_plist_bytes(bytes: &[u8]) -> (r: Option<String>)
    ensures
        opt_view(r) == match plist_parse(bytes@) {
            Ok(es) => revision_hash_spec(es),
            Err(_) => None,
        },
{
    match parse_plist_entries(bytes) {
        Ok(es) => revision_hash_of(es.as_slice()),
        Err(_) => None,
    }
}

/// ASCII letters in lower case; other characters unchanged.
pub open spec fn ascii_lower_char(c: char) -> char {
    if 'A' <= c && c <= 'Z' {
        ((c as u8) + 32) as char
    } else {
        c
    }
}

pub open spec fn ascii_lower(s: Seq<char>) -> Seq<char> {
    s.map_values(|c: char| ascii_lower_char(c))
}

/// The hash that a user id gives: the lowercase hex of the SHA-512 digest
/// of its decimal digits.
pub open spec fn user_id_hash(id: nat) -> Seq<char> {
    hex_lower(sha512_digest(encode_utf8(decimal(id))))
}

/// `id` is the user id behind `hash` (compared without regard to case).
pub open spec fn id_matches_hash(id: nat, hash: Seq<char>) -> bool {
    user_id_hash(id) == ascii_lower(hash)
}

fn lower_chars(s: &str) -> (v: Vec<char>)
    ensures
        v@ == ascii_lower(s@),
{
    let c = chars_of(s);
    let mut v: Vec<char> = Vec::new();
    let mut i: usize = 0;
    while i < c.len()
        invariant
            i <= c@.len(),
            c@ == s@,
            v@ == ascii_lower(s@).take(i as int),
        decreases c@.len() - i,
    {
        let ch = c[i];
        if 'A' <= ch && ch <= 'Z' {
            v.push(((ch as u8) + 32u8) as char);
        } else {
            v.push(ch);
        }
        i = i + 1;
        assert(v@ =~= ascii_lower(s@).take(i as int));
    }
    assert(ascii_lower(s@).take(c@.len() as int) =~= ascii_lower(s@));
    v
}

/// Searches the user ids `from..to` for the first one whose SHA-512 hash is
/// `hash`; the caller bounds the search by choosing the range.
pub fn search_user_id(hash: &str, from: u64, to: u64) -> (r: Option<i64>)
    requires
        to <= i64::MAX,
    ensures
        match r {
            Some(id) => from <= id < to && id_matches_hash(id as nat, hash@) && forall|j: nat|
                from <= j < id ==> !id_matches_hash(j, hash@),
            None => forall|j: nat| from <= j < to ==> !id_matches_hash(j, hash@),
        },
{
    let want = lower_chars(hash);
    let mut id = from;
    while id < to
        invariant
            from <= id,
            to <= i64::MAX,
            want@ == ascii_lower(hash@),
            forall|j: nat| from <= j < id ==> !id_matches_hash(j, hash@),
        decreases to - id,
    {
        let mut digits = String::new();
        push_decimal(&mut digits, id);
        let digest = sha512(digits.as_str().as_bytes());
        let hex = hex_encode(digest.as_slice());
        let got = chars_of(hex.as_str());
        if chars_equal(got.as_slice(), want.as_slice()) {
            return Some(id as i64);
        }
        id = id + 1;
    }
    None
}

/// How long, in milliseconds, the search for the user id behind a revision
/// hash may run.
pub const USER_ID_SEARCH_DEADLINE_MS: u64 = 15_000;

/// How many candidate ids are tried between two looks at the clock.
pub const USER_ID_SEARCH_CHUNK: u64 = 100_000;

/// What the deadline-bounded search for a user id does next.
#[derive(Debug, Clone, Copy, PartialEq, Eq)]
pub enum SearchStep {
    /// Try the ids `from..to` with [`search_user_id`].
    Search { from: u64, to: u64 },
    /// The time is up, or every id that fits an `i64` was tried.
    GiveUp,
}

/// The next step of the search: give up once the deadline has passed or the
/// ids are exhausted, else try the next chunk, cut at `i64::MAX`.
pub open spec fn search_step_spec(elapsed_ms: u64, next: u64) -> SearchStep {
    if elapsed_ms >= USER_ID_SEARCH_DEADLINE_MS || next >= i64::MAX {
        SearchStep::GiveUp
    } else if next + USER_ID_SEARCH_CHUNK < i64::MAX {
        SearchStep::Search { from: next, to: (next + USER_ID_SEARCH_CHUNK) as u64 }
    } else {
        SearchStep::Search { from: next, to: i64::MAX as u64 }
    }
}

/// One round of the search for a user id that started `elapsed_ms` ago and
/// has tried every id below `next`.
pub fn search_step(elapsed_ms: u64, next: u64) -> (s: SearchStep)
    ensures
        s == search_step_spec(elapsed_ms, next),
        s matches SearchStep::Search { from, to } ==> from < to <= i64::MAX,
{
    let limit: u64 = 0x7fff_ffff_ffff_ffff;
    if elapsed_ms >= USER_ID_SEARCH_DEADLINE_MS || next >= limit {
        SearchStep::GiveUp
    } else {
        let to = if next < limit - USER_ID_SEARCH_CHUNK {
            next + USER_ID_SEARCH_CHUNK
        } else {
            limit
        };
        SearchStep::Search { from: next, to }
    }
}

/// A preferences file in the app container that may hold the user id:
/// `com.kakao.KakaoTalkMac.<suffix>.plist`.
pub fn is_container_prefs_plist(name: &str) -> (b: bool)
    ensures
        b == (has_prefix(name@, "com.kakao.KakaoTalkMac."@) && has_suffix(name@, ".plist"@)),
{
    let c = chars_of(name);
    let p = chars_of("com.kakao.KakaoTalkMac.");
    let s = chars_of(".plist");
    starts_with_chars(c.as_slice(), p.as_slice()) && ends_with_chars(c.as_slice(), s.as_slice())
}

// ---------------------------------------------------------------------------
// Database file lookup
// ---------------------------------------------------------------------------

/// A directory entry as database discovery sees it.
#[derive(Debug, Clone)]
pub struct DirEntryInfo {
    pub name: String,
    /// It is a regular file (not a directory).
    pub is_file: bool,
}

/// An entry that may be the database itself: a regular file that is not a
/// `-wal` or `-shm` sidecar.
pub open spec fn is_database_file(e: DirEntryInfo) -> bool {
    e.is_file && !has_suffix(e.name@, "-wal"@) && !has_suffix(e.name@, "-shm"@)
}

/// A database file whose name is exactly the derived name.
pub open spec fn is_exact_database(e: DirEntryInfo, db_name: Seq<char>) -> bool {
    is_database_file(e) && e.name@ == db_name
}

/// A database file whose name contains the derived name.
pub open spec fn names_database(e: DirEntryInfo, db_name: Seq<char>) -> bool {
    is_database_file(e) && contains(e.name@, db_name)
}

/// A database file that looks like a KakaoTalk database: more than 20 bytes
/// of ASCII hexadecimal digits.
pub open spec fn is_hex_database(e: DirEntryInfo) -> bool {
    &&& is_database_file(e)
    &&& forall|i: int| 0 <= i < e.name@.len() ==> is_ascii_hex(#[trigger] e.name@[i])
    &&& encode_utf8(e.name@).len() > 20
}

pub open spec fn is_ascii_hex(c: char) -> bool {
    ('0' <= c && c <= '9') || ('a' <= c && c <= 'f') || ('A' <= c && c <= 'F')
}

fn is_database_file_of(e: &DirEntryInfo) -> (b: bool)
    ensures
        b == is_database_file(*e),
{
    let n = chars_of(e.name.as_str());
    let wal = chars_of("-wal");
    let shm = chars_of("-shm");
    e.is_file && !ends_with_chars(n.as_slice(), wal.as_slice()) && !ends_with_chars(
        n.as_slice(),
        shm.as_slice(),
    )
}

/// The database file named after `db_name`: the first regular, non-sidecar
/// file whose name is exactly `db_name`, else the first whose name contains
/// it. A directory or a `-wal`/`-shm` sidecar is never chosen.
pub fn find_database_entry(entries: &[DirEntryInfo], db_name: &str) -> (r: Option<usize>)
    ensures
        match r {
            Some(i) => i < entries@.len() && ((is_exact_database(entries@[i as int], db_name@)
                && forall|j: int|
                0 <= j < i ==> !is_exact_database(#[trigger] entries@[j], db_name@)) || (
            (forall|j: int|
                0 <= j < entries@.len() ==> !is_exact_database(#[trigger] entries@[j], db_name@))
                && names_database(entries@[i as int], db_name@) && forall|j: int|
                0 <= j < i ==> !names_database(#[trigger] entries@[j], db_name@))),
            None => forall|j: int|
                0 <= j < entries@.len() ==> !is_exact_database(#[trigger] entries@[j], db_name@)
                    && !names_database(entries@[j], db_name@),
        },
{
    let d = chars_of(db_name);
    let mut i: usize = 0;
    while i < entries.len()
        invariant
            i <= entries@.len(),
            d@ == db_name@,
            forall|j: int| 0 <= j < i ==> !is_exact_database(#[trigger] entries@[j], db_name@),
        decreases entries@.len() - i,
    {
        let n = chars_of(entries[i].name.as_str());
        if is_database_file_of(&entries[i]) && chars_equal(n.as_slice(), d.as_slice()) {
            return Some(i);
        }
        i = i + 1;
    }
    let mut i: usize = 0;
    while i < entries.len()
        invariant
            i <= entries@.len(),
            d@ == db_name@,
            forall|j: int|
                0 <= j < entries@.len() ==> !is_exact_database(#[trigger] entries@[j], db_name@),
            forall|j: int| 0 <= j < i ==> !names_database(#[trigger] entries@[j], db_name@),
        decreases entries@.len() - i,
    {
        let n = chars_of(entries[i].name.as_str());
        if is_database_file_of(&entries[i]) && contains_chars(n.as_slice(), d.as_slice()) {
            return Some(i);
        }
        i = i + 1;
    }
    None
}

fn all_ascii_hex(s: &[char]) -> (b: bool)
    ensures
        b == forall|i: int| 0 <= i < s@.len() ==> is_ascii_hex(#[trigger] s@[i]),
{
    let mut i: usize = 0;
    while i < s.len()
        invariant
            i <= s@.len(),
            forall|k: int| 0 <= k < i ==> is_ascii_hex(#[trigger] s@[k]),
        decreases s@.len() - i,
    {
        let c = s[i];
        if !(('0' <= c && c <= '9') || ('a' <= c && c <= 'f') || ('A' <= c && c <= 'F')) {
            return false;
        }
        i = i + 1;
    }
    true
}

/// The first regular, non-sidecar file that looks like a database (more
/// than 20 bytes of hexadecimal digits); a hex-named directory is never
/// chosen.
pub fn find_hex_database_entry(entries: &[DirEntryInfo]) -> (r: Option<usize>)
    ensures
        match r {
            Some(i) => i < entries@.len() && is_hex_database(entries@[i as int]) && forall|j: int|
                0 <= j < i ==> !is_hex_database(#[trigger] entries@[j]),
            None => forall|j: int| 0 <= j < entries@.len() ==> !is_hex_database(#[trigger] entries@[j]),
        },
{
    let mut i: usize = 0;
    while i < entries.len()
        invariant
            i <= entries@.len(),
            forall|j: int| 0 <= j < i ==> !is_hex_database(#[trigger] entries@[j]),
        decreases entries@.len() - i,
    {
        let n = chars_of(entries[i].name.as_str());
        if is_database_file_of(&entries[i]) && all_ascii_hex(n.as_slice()) && utf8_len_at_least(
            n.as_slice(),
            21,
        ) {
            return Some(i);
        }
        i = i + 1;
    }
    None
}

} // verus!
