//! Chat message links: parsing `https://t.me/...` links into a chat
//! entity and message id, and building such links back.

use vstd::prelude::*;
use crate::num::{int_str_shape, int_str_val, parse_i32_chars, parse_i64_chars, dec_str_signed};
use crate::text::{find_ch, lemma_find_ch, match_at, has_match_at};

verus! {

/// A chat either known by id, by username, or as a full chat record.
#[derive(Debug, Clone)]
pub enum ChatEntity {
    /// A chat record, as the messaging surface hands it out.
    Chat(ChatInfo),
    /// A bare chat id; links use the private form.
    Id(i64),
    /// A bare username; links use the public form.
    Username(String),
}

/// What the library reads of a chat record.
#[derive(Debug, Clone)]
pub struct ChatInfo {
    /// The chat's id.
    pub id: i64,
    /// The chat's public username, when it has one.
    pub username: Option<String>,
}

/// A parsed message link: the chat and the message id within it.
#[derive(Debug, Clone)]
pub struct MessageInfo {
    /// The chat the message lives in.
    pub chat_entity: ChatEntity,
    /// The message id.
    pub id: i32,
}

impl MessageInfo {
    pub fn new(chat_entity: ChatEntity, id: i32) -> (r: Self)
        ensures
            r.chat_entity == chat_entity,
            r.id == id,
    {
        MessageInfo { chat_entity, id }
    }
}

/// The spec-level shape of a parsed link's chat.
pub enum ChatEntityModel {
    Id(int),
    Username(Seq<char>),
}

/// Why a link does not parse.
#[derive(Clone, Copy, Debug, PartialEq, Eq, Structural)]
pub enum LinkError {
    /// The text is not a message link at all.
    NotMessageLink,
    /// The link does not hold exactly a chat part and a message part.
    InfoNotPair,
    /// The chat id of a private link is not a number.
    BadChatId,
    /// The message id is not a number.
    BadMessageId,
}

/// The segments of `s` split at every `c`, empties kept.
pub open spec fn split_ch(s: Seq<char>, c: char) -> Seq<Seq<char>>
    decreases s.len(),
    via split_ch_dec
{
    let k = find_ch(s, c);
    if k < 0 {
        seq![s]
    } else {
        seq![s.take(k)] + split_ch(s.skip(k + 1), c)
    }
}

#[via_fn]
proof fn split_ch_dec(s: Seq<char>, c: char) {
    lemma_find_ch(s, c);
}

/// Splits a character vector at every occurrence of `c`.
pub fn split_on_char(v: &Vec<char>, c: char) -> (r: Vec<Vec<char>>)
    ensures
        r@.map_values(|w: Vec<char>| w@) == split_ch(v@, c),
{
    proof {
        assert(v@.skip(0) =~= v@);
    }
    let n = v.len();
    let mut r: Vec<Vec<char>> = Vec::new();
    proof {
        assert(r@.map_values(|w: Vec<char>| w@) + split_ch(v@.skip(0), c) =~= split_ch(v@, c));
    }
    let mut i: usize = 0;
    loop
        invariant_except_break
            split_ch(v@, c) == r@.map_values(|w: Vec<char>| w@) + split_ch(v@.skip(i as int), c),
        invariant
            n == v@.len(),
            i <= n,
        ensures
            r@.map_values(|w: Vec<char>| w@) == split_ch(v@, c),
        decreases n - i + 1,
    {
        let ghost t = v@.skip(i as int);
        let mut j: usize = i;
        let mut seg: Vec<char> = Vec::new();
        while j < n && v[j] != c
            invariant
                n == v@.len(),
                i <= j <= n,
                seg@ == v@.subrange(i as int, j as int),
                forall|m: int| i <= m < j ==> v@[m] != c,
            decreases n - j,
        {
            seg.push(v[j]);
            proof {
                assert(v@.subrange(i as int, j + 1 as int) =~= v@.subrange(i as int, j as int).push(
                    v@[j as int],
                ));
            }
            j = j + 1;
        }
        proof {
            lemma_find_ch(t, c);
            assert(forall|m: int| 0 <= m < t.len() ==> t[m] == v@[i + m]);
            if j < n {
                assert(t[j - i] == c);
                assert(find_ch(t, c) == j - i) by {
                    let f = find_ch(t, c);
                    if f < 0 {
                    } else if f < j - i {
                        assert(t[f] == c);
                        assert(v@[i + f] == c);
                        assert(false);
                    } else if f > j - i {
                        assert(t[j - i] != c);
                        assert(false);
                    }
                }
                assert(t.take(j - i) =~= v@.subrange(i as int, j as int));
                assert(t.skip(j - i + 1) =~= v@.skip(j + 1));
            } else {
                assert(find_ch(t, c) == -1) by {
                    let f = find_ch(t, c);
                    if f >= 0 {
                        assert(t[f] == c);
                        assert(v@[i + f] == c);
                        assert(false);
                    }
                }
                assert(t =~= v@.subrange(i as int, j as int));
            }
        }
        let ghost r0 = r@.map_values(|w: Vec<char>| w@);
        r.push(seg);
        proof {
            assert(r@.map_values(|w: Vec<char>| w@) =~= r0.push(v@.subrange(i as int, j as int)));
        }
        if j < n {
            proof {
                assert(r0 + (seq![t.take(j - i)] + split_ch(v@.skip(j + 1), c)) =~= r0.push(
                    t.take(j - i),
                ) + split_ch(v@.skip(j + 1), c));
            }
            i = j + 1;
        } else {
            proof {
                assert(r0 + seq![t] =~= r0.push(t));
            }
            break ;
        }
    }
    r
}

/// The private-link prefix.
pub open spec fn private_prefix() -> Seq<char> {
    seq!['h', 't', 't', 'p', 's', ':', '/', '/', 't', '.', 'm', 'e', '/', 'c', '/']
}

/// The public-link prefix.
pub open spec fn public_prefix() -> Seq<char> {
    seq!['h', 't', 't', 'p', 's', ':', '/', '/', 't', '.', 'm', 'e', '/']
}

/// What parsing a message link yields: the chat and the message id, or
/// the first error met, in the order the parts are read.
pub open spec fn parse_link(s: Seq<char>) -> Result<(ChatEntityModel, int), LinkError> {
    if match_at(s, private_prefix(), 0) {
        parse_link_rest(s.skip(15), true)
    } else if match_at(s, public_prefix(), 0) {
        parse_link_rest(s.skip(13), false)
    } else {
        Err(LinkError::NotMessageLink)
    }
}

pub open spec fn parse_link_rest(rest: Seq<char>, is_private: bool) -> Result<
    (ChatEntityModel, int),
    LinkError,
> {
    let segs = split_ch(rest, '/');
    if segs.len() != 2 {
        Err(LinkError::InfoNotPair)
    } else if is_private {
        if int_str_shape(segs[0]) && i64::MIN <= int_str_val(segs[0]) <= i64::MAX {
            if int_str_shape(segs[1]) && i32::MIN <= int_str_val(segs[1]) <= i32::MAX {
                Ok((ChatEntityModel::Id(int_str_val(segs[0])), int_str_val(segs[1])))
            } else {
                Err(LinkError::BadMessageId)
            }
        } else {
            Err(LinkError::BadChatId)
        }
    } else {
        if int_str_shape(segs[1]) && i32::MIN <= int_str_val(segs[1]) <= i32::MAX {
            Ok((ChatEntityModel::Username(segs[0]), int_str_val(segs[1])))
        } else {
            Err(LinkError::BadMessageId)
        }
    }
}

/// Parses a message link into the chat entity and message id.
pub fn get_message_info(link: &str) -> (r: Result<MessageInfo, LinkError>)
    ensures
        match r {
            Ok(info) => match parse_link(link@) {
                Ok((chat, mid)) => info.id as int == mid && (match info.chat_entity {
                    ChatEntity::Id(cid) => chat == ChatEntityModel::Id(cid as int),
                    ChatEntity::Username(u) => chat == ChatEntityModel::Username(u@),
                    ChatEntity::Chat(_) => false,
                }),
                Err(_) => false,
            },
            Err(e) => parse_link(link@) == Err::<(ChatEntityModel, int), LinkError>(e),
        },
{
    let v = crate::strutil::str_to_chars(link);
    let privp: Vec<char> = vec![
        'h', 't', 't', 'p', 's', ':', '/', '/', 't', '.', 'm', 'e', '/', 'c', '/',
    ];
    let pubp: Vec<char> = vec!['h', 't', 't', 'p', 's', ':', '/', '/', 't', '.', 'm', 'e', '/'];
    proof {
        assert(privp@ =~= private_prefix());
        assert(pubp@ =~= public_prefix());
    }
    let matches_private = v.len() >= 15 && has_match_at(&v, &privp, 0);
    let matches_public = v.len() >= 13 && has_match_at(&v, &pubp, 0);
    if !matches_private && !matches_public {
        return Err(LinkError::NotMessageLink);
    }
    let is_private: bool = matches_private;
    let skip_n: usize = if matches_private {
        15
    } else {
        13
    };
    let mut rest: Vec<char> = Vec::new();
    let mut i: usize = skip_n;
    while i < v.len()
        invariant
            skip_n <= i <= v@.len(),
            rest@ == v@.subrange(skip_n as int, i as int),
        decreases v@.len() - i,
    {
        proof {
            assert(v@.subrange(skip_n as int, i + 1 as int) =~= v@.subrange(
                skip_n as int,
                i as int,
            ).push(v@[i as int]));
        }
        rest.push(v[i]);
        i = i + 1;
    }
    proof {
        assert(rest@ =~= v@.skip(skip_n as int));
    }
    let segs = split_on_char(&rest, '/');
    proof {
        assert(segs@.map_values(|w: Vec<char>| w@).len() == segs@.len());
    }
    if segs.len() != 2 {
        return Err(LinkError::InfoNotPair);
    }
    proof {
        assert(segs@.map_values(|w: Vec<char>| w@)[0] == segs@[0]@);
        assert(segs@.map_values(|w: Vec<char>| w@)[1] == segs@[1]@);
    }
    let chat_entity: ChatEntity;
    if is_private {
        match parse_i64_chars(&segs[0]) {
            Some(cid) => {
                chat_entity = ChatEntity::Id(cid);
            },
            None => {
                return Err(LinkError::BadChatId);
            },
        }
    } else {
        chat_entity = ChatEntity::Username(crate::strutil::chars_to_string(&segs[0]));
    }
    match parse_i32_chars(&segs[1]) {
        Some(mid) => Ok(MessageInfo { chat_entity, id: mid }),
        None => Err(LinkError::BadMessageId),
    }
}

/// The link that names message `id` in the chat `e`: the public form when
/// a username is known, else the private form over the chat id.
pub open spec fn link_spec(e: ChatEntity, id: int) -> Seq<char> {
    match e {
        ChatEntity::Chat(c) => match c.username {
            Some(u) => public_prefix() + u@ + seq!['/'] + dec_str_signed(id),
            None => private_prefix() + dec_str_signed(c.id as int) + seq!['/'] + dec_str_signed(
                id,
            ),
        },
        ChatEntity::Id(cid) => private_prefix() + dec_str_signed(cid as int) + seq!['/']
            + dec_str_signed(id),
        ChatEntity::Username(u) => public_prefix() + u@ + seq!['/'] + dec_str_signed(id),
    }
}

fn build_link(prefix: &Vec<char>, middle: &Vec<char>, id: i32) -> (r: String)
    ensures
        r@ == prefix@ + middle@ + seq!['/'] + dec_str_signed(id as int),
{
    let slash: Vec<char> = vec!['/'];
    proof {
        assert(slash@ =~= seq!['/']);
    }
    let id_chars = crate::strutil::str_to_chars(crate::num::i64_to_dec(id as i64).as_str());
    let joined = crate::text::concat_chars(
        &crate::text::concat_chars(&crate::text::concat_chars(prefix, middle), &slash),
        &id_chars,
    );
    crate::strutil::chars_to_string(&joined)
}

/// Builds the link that names message `id` in the chat `chat_entity`.
pub fn get_message_link(chat_entity: &ChatEntity, id: i32) -> (r: String)
    ensures
        r@ == link_spec(*chat_entity, id as int),
{
    let privp: Vec<char> = vec![
        'h', 't', 't', 'p', 's', ':', '/', '/', 't', '.', 'm', 'e', '/', 'c', '/',
    ];
    let pubp: Vec<char> = vec!['h', 't', 't', 'p', 's', ':', '/', '/', 't', '.', 'm', 'e', '/'];
    proof {
        assert(privp@ =~= private_prefix());
        assert(pubp@ =~= public_prefix());
    }
    match chat_entity {
        ChatEntity::Chat(c) => match &c.username {
            Some(u) => {
                let u_chars = crate::strutil::str_to_chars(u.as_str());
                build_link(&pubp, &u_chars, id)
            },
            None => {
                let cid_chars = crate::strutil::str_to_chars(
                    crate::num::i64_to_dec(c.id).as_str(),
                );
                build_link(&privp, &cid_chars, id)
            },
        },
        ChatEntity::Id(cid) => {
            let cid_chars = crate::strutil::str_to_chars(crate::num::i64_to_dec(*cid).as_str());
            build_link(&privp, &cid_chars, id)
        },
        ChatEntity::Username(u) => {
            let u_chars = crate::strutil::str_to_chars(u.as_str());
            build_link(&pubp, &u_chars, id)
        },
    }
}

impl core::convert::From<i64> for ChatEntity {
    /// A bare chat id.
    fn from(id: i64) -> (r: Self) {
        ChatEntity::Id(id)
    }
}

impl vstd::std_specs::convert::FromSpecImpl<i64> for ChatEntity {
    open spec fn obeys_from_spec() -> bool {
        true
    }

    open spec fn from_spec(id: i64) -> Self {
        ChatEntity::Id(id)
    }
}

impl core::convert::From<String> for ChatEntity {
    /// A bare username.
    fn from(name: String) -> (r: Self) {
        ChatEntity::Username(name)
    }
}

impl vstd::std_specs::convert::FromSpecImpl<String> for ChatEntity {
    open spec fn obeys_from_spec() -> bool {
        true
    }

    open spec fn from_spec(name: String) -> Self {
        ChatEntity::Username(name)
    }
}

} // verus!
