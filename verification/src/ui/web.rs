//! Decisions of the web handlers: reading ids from request paths, paging,
//! and the steps of the subscription loops.
use vstd::prelude::*;
use vstd::string::{StringExecFns, StringSliceAdditionalSpecFns};

use crate::codec::{
    base58_bytes, base58_decode, base58_valid, decimal, hex_encode, hex_text, parse_u32,
    parse_u32_spec, push_decimal,
};
use crate::ui::db::Stats;
use crate::ui::error::AppError;
use crate::ui::util::{decoded_txid, invalid_txid_message, reversed};

verus! {

/// The message of a query id that is not base58.
pub open spec fn invalid_query_id_message() -> Seq<char> {
    "Invalid query ID: must be base58 encoded"@
}

/// The message of a decoded transaction id of `n` bytes, neither 32 nor 64.
pub open spec fn invalid_txid_length_message(n: nat) -> Seq<char> {
    "Invalid txid length: expected 32 (Zcash) or 64 (Solana) bytes, got "@ + decimal(n)
}

/// The message of a block hash that is not base58.
pub open spec fn invalid_hash_message() -> Seq<char> {
    "Invalid hash: must be base58 encoded"@
}

/// The message of a block hash of `n` bytes, not 32.
pub open spec fn invalid_hash_length_message(n: nat) -> Seq<char> {
    "Invalid hash length: expected 32 bytes, got "@ + decimal(n)
}

/// Decode and validate a query ID (base58 encoded)
pub fn decode_query_id(qid_str: &str) -> (r: Result<Vec<u8>, String>)
    ensures
        base58_valid(qid_str@) ==> (r matches Ok(b) && b@ == base58_bytes(qid_str@)),
        !base58_valid(qid_str@) ==> (r matches Err(m) && m@ == invalid_query_id_message()),
{
    match base58_decode(qid_str) {
        Ok(bytes) => Ok(bytes),
        Err(_) => {
            proof {
                reveal_strlit("Invalid query ID: must be base58 encoded");
            }
            Err("Invalid query ID: must be base58 encoded".to_owned())
        },
    }
}

/// Decode and validate a transaction ID (hex for Zcash, base58 for
/// Solana): the id must decode, and hold 32 (Zcash) or 64 (Solana) bytes.
pub fn decode_txid(txid_str: &str) -> (r: Result<(Vec<u8>, &'static str), String>)
    ensures
        decoded_txid(txid_str) is None ==> (r matches Err(m) && m@ == invalid_txid_message()),
        decoded_txid(txid_str) matches Some(t) ==> {
            &&& t.len() == 32 ==> (r matches Ok((b, chain)) && b@ == t && chain@ == "Zcash"@)
            &&& t.len() == 64 ==> (r matches Ok((b, chain)) && b@ == t && chain@ == "Solana"@)
            &&& t.len() != 32 && t.len() != 64 ==> (r matches Err(m) && m@
                == invalid_txid_length_message(t.len()))
        },
{
    let txid_bytes = match crate::ui::util::decode_txid(txid_str) {
        Ok(bytes) => bytes,
        Err(_) => {
            proof {
                reveal_strlit("Invalid txid format: must be hex or base58 encoded");
            }
            return Err("Invalid txid format: must be hex or base58 encoded".to_owned());
        },
    };
    if txid_bytes.len() == 32 {
        Ok((txid_bytes, "Zcash"))
    } else if txid_bytes.len() == 64 {
        Ok((txid_bytes, "Solana"))
    } else {
        let mut message = "Invalid txid length: expected 32 (Zcash) or 64 (Solana) bytes, got ".to_owned();
        push_decimal(&mut message, txid_bytes.len());
        Err(message)
    }
}

/// The display text of a stored transaction id: hexadecimal of the
/// reversed bytes.
pub fn reversed_hex(tx_id: &[u8]) -> (text: String)
    ensures
        text@ == hex_text(tx_id@.reverse()),
{
    let display = reversed(tx_id);
    hex_encode(display.as_slice())
}

/// The page and the number of rows per page of a block or transaction
/// list: page 0 and 10 rows by default, at most 100 rows.
pub fn page_params(page: Option<u32>, row: Option<u32>) -> (params: (u32, u32))
    ensures
        params.0 == (match page {
            Some(p) => p,
            None => 0,
        }),
        params.1 == (match row {
            Some(r) => if r < 100 {
                r
            } else {
                100
            },
            None => 10,
        }),
{
    let page = match page {
        Some(p) => p,
        None => 0,
    };
    let row = match row {
        Some(r) => if r < 100 {
            r
        } else {
            100
        },
        None => 10,
    };
    (page, row)
}

/// The number of rows before page `page` of `row` rows.
pub fn page_offset(page: u32, row: u32) -> (offset: u32)
    requires
        page * row <= u32::MAX,
    ensures
        offset == page * row,
{
    page * row
}

/// The number of rows before page `page` of `row` rows, or `None` when it
/// does not fit in 32 bits.
pub fn checked_page_offset(page: u32, row: u32) -> (offset: Option<u32>)
    ensures
        offset == (if page * row <= u32::MAX {
            Some((page * row) as u32)
        } else {
            None
        }),
{
    if row != 0 && page > u32::MAX / row {
        proof {
            assert(page * row > u32::MAX) by (nonlinear_arith)
                requires
                    row != 0,
                    page > u32::MAX / row,
                    row <= u32::MAX,
            ;
        }
        return None;
    }
    proof {
        assert(page * row <= u32::MAX) by (nonlinear_arith)
            requires
                row == 0 || page <= u32::MAX / row,
                row <= u32::MAX,
        ;
    }
    Some(page_offset(page, row))
}

/// A block named in a request path.
#[derive(Debug)]
pub enum BlockRef {
    /// The block at a slot.
    Slot(u32),
    /// The block with a header hash.
    Hash(Vec<u8>),
}

/// Reads the block named by `hash_or_slot`: a decimal slot, else a base58
/// header hash of 32 bytes.
pub fn parse_block_ref(hash_or_slot: &str) -> (r: Result<BlockRef, AppError>)
    ensures
        parse_u32_spec(hash_or_slot.spec_bytes()) matches Some(slot) ==> (r matches Ok(
            BlockRef::Slot(s),
        ) && s == slot),
        parse_u32_spec(hash_or_slot.spec_bytes()) is None ==> {
            &&& !base58_valid(hash_or_slot@) ==> (r matches Err(AppError::BadRequest(m)) && m@
                == invalid_hash_message())
            &&& base58_valid(hash_or_slot@) && base58_bytes(hash_or_slot@).len() != 32 ==> (
            r matches Err(AppError::BadRequest(m)) && m@ == invalid_hash_length_message(
                base58_bytes(hash_or_slot@).len(),
            ))
            &&& base58_valid(hash_or_slot@) && base58_bytes(hash_or_slot@).len() == 32 ==> (
            r matches Ok(BlockRef::Hash(h)) && h@ == base58_bytes(hash_or_slot@))
        },
{
    if let Some(slot) = parse_u32(hash_or_slot) {
        return Ok(BlockRef::Slot(slot));
    }
    let hash_bytes = match base58_decode(hash_or_slot) {
        Ok(bytes) => bytes,
        Err(_) => {
            proof {
                reveal_strlit("Invalid hash: must be base58 encoded");
            }
            return Err(AppError::BadRequest("Invalid hash: must be base58 encoded".to_owned()));
        },
    };
    if hash_bytes.len() != 32 {
        let mut message = "Invalid hash length: expected 32 bytes, got ".to_owned();
        push_decimal(&mut message, hash_bytes.len());
        return Err(AppError::BadRequest(message));
    }
    Ok(BlockRef::Hash(hash_bytes))
}

/// The statistics `stats` differ from the last ones broadcast in a field
/// that subscribers watch (blocks, transactions, slot, receipts), or none
/// were broadcast yet.
pub open spec fn stats_differ(last: Option<Stats>, stats: Stats) -> bool {
    match last {
        Some(l) => l.blocks != stats.blocks || l.txns != stats.txns || l.slot != stats.slot
            || l.receipts != stats.receipts,
        None => true,
    }
}

/// Whether freshly polled statistics must be broadcast.
pub fn should_broadcast(last: &Option<Stats>, stats: &Stats) -> (broadcast: bool)
    ensures
        broadcast == stats_differ(*last, *stats),
{
    match last {
        Some(l) => l.blocks != stats.blocks || l.txns != stats.txns || l.slot != stats.slot
            || l.receipts != stats.receipts,
        None => true,
    }
}

/// One poll of the statistics: `last` is what was broadcast last and
/// `read` what the poll read (`None` when the read failed). Gives whether to
/// broadcast the read statistics and what is broadcast last afterwards.
pub open spec fn stats_poll(last: Option<Stats>, read: Option<Stats>) -> (bool, Option<Stats>) {
    match read {
        Some(s) => if stats_differ(last, s) {
            (true, Some(s))
        } else {
            (false, last)
        },
        None => (false, last),
    }
}

/// The step of the statistics polling loop (see `stats_poll`).
pub fn stats_poll_step(last: Option<Stats>, read: Option<Stats>) -> (step: (bool, Option<Stats>))
    ensures
        step == stats_poll(last, read),
{
    match read {
        Some(s) => if should_broadcast(&last, &s) {
            (true, Some(s))
        } else {
            (false, last)
        },
        None => (false, last),
    }
}

/// The statistics broadcast by successive polls that read `reads`, when
/// `last` was broadcast last before them.
pub open spec fn poll_broadcasts(last: Option<Stats>, reads: Seq<Option<Stats>>) -> Seq<Stats>
    decreases reads.len(),
{
    if reads.len() == 0 {
        seq![]
    } else {
        let step = stats_poll(last, reads[0]);
        let rest = poll_broadcasts(step.1, reads.drop_first());
        if step.0 {
            seq![reads[0]->0] + rest
        } else {
            rest
        }
    }
}

/// What is broadcast last after successive polls that read `reads`.
pub open spec fn poll_last(last: Option<Stats>, reads: Seq<Option<Stats>>) -> Option<Stats>
    decreases reads.len(),
{
    if reads.len() == 0 {
        last
    } else {
        poll_last(stats_poll(last, reads[0]).1, reads.drop_first())
    }
}

/// Over any run of polls: each broadcast differs from the one before it (or,
/// for the first, from what was broadcast before the run) in blocks,
/// transactions, slot or receipts; what counts as broadcast last is the last
/// broadcast (or the earlier one when nothing was sent); and a failed read
/// at the end sends nothing and changes nothing.
pub proof fn lemma_poll_broadcasts(last: Option<Stats>, reads: Seq<Option<Stats>>)
    ensures
        forall|i: int|
            0 <= i < poll_broadcasts(last, reads).len() ==> stats_differ(
                if i == 0 {
                    last
                } else {
                    Some(poll_broadcasts(last, reads)[i - 1])
                },
                #[trigger] poll_broadcasts(last, reads)[i],
            ),
        poll_last(last, reads) == (if poll_broadcasts(last, reads).len() == 0 {
            last
        } else {
            Some(poll_broadcasts(last, reads).last())
        }),
        poll_broadcasts(last, reads.push(None)) == poll_broadcasts(last, reads),
        poll_last(last, reads.push(None)) == poll_last(last, reads),
    decreases reads.len(),
{
    if reads.len() > 0 {
        let step = stats_poll(last, reads[0]);
        let tail = reads.drop_first();
        lemma_poll_broadcasts(step.1, tail);
        let longer = reads.push(None);
        assert(longer.drop_first() =~= tail.push(None));
        assert(longer[0] == reads[0]);
        assert(poll_last(last, longer) == poll_last(step.1, tail.push(None)));
        assert(poll_broadcasts(last, longer) == (if step.0 {
            seq![reads[0]->0] + poll_broadcasts(step.1, tail.push(None))
        } else {
            poll_broadcasts(step.1, tail.push(None))
        }));
        let sent = poll_broadcasts(last, reads);
        let rest = poll_broadcasts(step.1, tail);
        if step.0 {
            assert(sent == seq![reads[0]->0] + rest);
            assert forall|i: int| 0 <= i < sent.len() implies stats_differ(
                if i == 0 {
                    last
                } else {
                    Some(sent[i - 1])
                },
                #[trigger] sent[i],
            ) by {
                if i > 0 {
                    assert(sent[i] == rest[i - 1]);
                    assert(sent[i - 1] == if i == 1 {
                        reads[0]->0
                    } else {
                        rest[i - 2]
                    });
                }
            }
        }
    } else {
        let one = reads.push(None);
        assert(one.drop_first() =~= Seq::<Option<Stats>>::empty());
        assert(poll_broadcasts(last, one.drop_first()) == Seq::<Stats>::empty());
        assert(poll_last(last, one.drop_first()) == last);
        assert(poll_broadcasts(last, one) =~= Seq::<Stats>::empty());
    }
}

/// What one poll of a subscription found.
#[derive(Debug, Clone, Copy, PartialEq, Eq, Structural)]
pub enum PollStatus {
    /// The data is there.
    Found,
    /// The data is not there yet.
    NotFound,
    /// The lookup failed.
    Failed,
}

/// What a subscription does after a poll.
#[derive(Debug, Clone, Copy, PartialEq, Eq, Structural)]
pub enum PollAction {
    /// Send the data and close the socket.
    SendAndClose,
    /// Send the pending notice, then wait for the next poll.
    NotifyPending,
    /// Wait for the next poll.
    Wait,
    /// Send the error and close the socket.
    FailAndClose,
}

/// The step of a polling subscription: `sent` tells whether the pending
/// notice went out already. Returns the action and the new `sent`.
pub fn poll_step(sent: bool, status: PollStatus) -> (step: (PollAction, bool))
    ensures
        step == (match status {
            PollStatus::Found => (PollAction::SendAndClose, sent),
            PollStatus::NotFound => if sent {
                (PollAction::Wait, true)
            } else {
                (PollAction::NotifyPending, true)
            },
            PollStatus::Failed => (PollAction::FailAndClose, sent),
        }),
{
    match status {
        PollStatus::Found => (PollAction::SendAndClose, sent),
        PollStatus::NotFound => if sent {
            (PollAction::Wait, true)
        } else {
            (PollAction::NotifyPending, true)
        },
        PollStatus::Failed => (PollAction::FailAndClose, sent),
    }
}

/// A message read from a subscriber's socket.
#[derive(Debug, Clone, Copy, PartialEq, Eq, Structural)]
pub enum SocketEvent {
    /// The client closed the socket, or it ended.
    Closed,
    /// The client sent a ping.
    Ping,
    /// Any other message.
    Other,
}

/// What a subscription does with a socket message.
#[derive(Debug, Clone, Copy, PartialEq, Eq, Structural)]
pub enum SocketAction {
    /// End the subscription.
    Stop,
    /// Answer with a pong.
    Pong,
    /// Ignore the message.
    Ignore,
}

/// The answer to a socket message.
pub fn socket_action(event: SocketEvent) -> (action: SocketAction)
    ensures
        action == (match event {
            SocketEvent::Closed => SocketAction::Stop,
            SocketEvent::Ping => SocketAction::Pong,
            SocketEvent::Other => SocketAction::Ignore,
        }),
{
    match event {
        SocketEvent::Closed => SocketAction::Stop,
        SocketEvent::Ping => SocketAction::Pong,
        SocketEvent::Other => SocketAction::Ignore,
    }
}

/// An event of the statistics broadcast channel.
#[derive(Debug, Clone, Copy, PartialEq, Eq, Structural)]
pub enum FeedEvent {
    /// New statistics arrived.
    Update,
    /// The receiver fell behind and missed updates.
    Lagged,
    /// The channel closed.
    Closed,
}

/// What a statistics subscription does with a channel event.
#[derive(Debug, Clone, Copy, PartialEq, Eq, Structural)]
pub enum FeedAction {
    /// Send the statistics to the client.
    Forward,
    /// Keep listening.
    Skip,
    /// End the subscription.
    Stop,
}

/// The answer to a channel event.
pub fn feed_action(event: FeedEvent) -> (action: FeedAction)
    ensures
        action == (match event {
            FeedEvent::Update => FeedAction::Forward,
            FeedEvent::Lagged => FeedAction::Skip,
            FeedEvent::Closed => FeedAction::Stop,
        }),
{
    match event {
        FeedEvent::Update => FeedAction::Forward,
        FeedEvent::Lagged => FeedAction::Skip,
        FeedEvent::Closed => FeedAction::Stop,
    }
}

/// The lowercase form of the ASCII byte `b` (other bytes are kept).
pub open spec fn ascii_lower(b: u8) -> u8 {
    if 65 <= b <= 90 {
        (b + 32) as u8
    } else {
        b
    }
}

/// The bytes of `"websocket"`.
pub open spec fn websocket_bytes() -> Seq<u8> {
    seq![119u8, 101u8, 98u8, 115u8, 111u8, 99u8, 107u8, 101u8, 116u8]
}

/// `text` equals `"websocket"` ignoring ASCII case.
pub open spec fn is_websocket_text(text: Seq<u8>) -> bool {
    &&& text.len() == websocket_bytes().len()
    &&& forall|i: int| 0 <= i < text.len() ==> ascii_lower(#[trigger] text[i]) == websocket_bytes()[i]
}

/// Whether an `Upgrade` header value asks for a WebSocket.
pub fn is_websocket_upgrade(value: Option<&str>) -> (upgrade: bool)
    ensures
        upgrade == (match value {
            Some(v) => is_websocket_text(v.spec_bytes()),
            None => false,
        }),
{
    let v = match value {
        Some(v) => v,
        None => return false,
    };
    let bytes = v.as_bytes();
    let ghost target = websocket_bytes();
    let expected: [u8; 9] = [119u8, 101u8, 98u8, 115u8, 111u8, 99u8, 107u8, 101u8, 116u8];
    assert(expected@ =~= target);
    if bytes.len() != 9 {
        return false;
    }
    let mut i: usize = 0;
    while i < 9
        invariant
            bytes@.len() == 9,
            bytes@ == v.spec_bytes(),
            value == Some(v),
            target == websocket_bytes(),
            expected@ == target,
            0 <= i <= 9,
            forall|j: int| 0 <= j < i ==> ascii_lower(#[trigger] bytes@[j]) == target[j],
        decreases 9 - i,
    {
        let b = bytes[i];
        let lower = if b >= 65u8 && b <= 90u8 {
            b + 32
        } else {
            b
        };
        if lower != expected[i] {
            assert(ascii_lower(v.spec_bytes()[i as int]) != websocket_bytes()[i as int]);
            return false;
        }
        i = i + 1;
    }
    true
}

} // verus!
