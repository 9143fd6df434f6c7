use vstd::prelude::*;

use crate::block::{deep, merkle_matches, Block};
use crate::block_header::header_hash;
use crate::error::CustomError;
use crate::headers::Headers;
use crate::inventory::{inv_view, Inventory, InventoryType};
use crate::message::{padded_command, Ping, Pong, COMMAND_SIZE};
use crate::parser::bytes_equal;

verus! {

/// A full page of headers: receiving one means the peer has more.
pub const HEADERS_PAGE_LIMIT: usize = 2000;

/// What the reader loop does with a message, decided by its command.
#[derive(Debug, Clone, Copy, PartialEq, Eq, Structural)]
pub enum CommandKind {
    Headers,
    Block,
    Ping,
    NotFound,
    /// Drained without a word: `alert`, `addr`, `inv`, `sendheaders`.
    Ignored,
    /// Drained, with a log line naming the command.
    Unknown,
}

pub open spec fn cmd_headers() -> Seq<u8> {
    seq![104u8, 101, 97, 100, 101, 114, 115]
}

pub open spec fn cmd_block() -> Seq<u8> {
    seq![98u8, 108, 111, 99, 107]
}

pub open spec fn cmd_ping() -> Seq<u8> {
    seq![112u8, 105, 110, 103]
}

pub open spec fn cmd_notfound() -> Seq<u8> {
    seq![110u8, 111, 116, 102, 111, 117, 110, 100]
}

pub open spec fn cmd_alert() -> Seq<u8> {
    seq![97u8, 108, 101, 114, 116]
}

pub open spec fn cmd_addr() -> Seq<u8> {
    seq![97u8, 100, 100, 114]
}

pub open spec fn cmd_inv() -> Seq<u8> {
    seq![105u8, 110, 118]
}

pub open spec fn cmd_sendheaders() -> Seq<u8> {
    seq![115u8, 101, 110, 100, 104, 101, 97, 100, 101, 114, 115]
}

/// The kind of a zero-padded command field.
pub open spec fn command_kind(field: Seq<u8>) -> CommandKind {
    if field == padded_command(cmd_headers()) {
        CommandKind::Headers
    } else if field == padded_command(cmd_block()) {
        CommandKind::Block
    } else if field == padded_command(cmd_ping()) {
        CommandKind::Ping
    } else if field == padded_command(cmd_notfound()) {
        CommandKind::NotFound
    } else if field == padded_command(cmd_alert()) || field == padded_command(cmd_addr()) || field
        == padded_command(cmd_inv()) || field == padded_command(cmd_sendheaders()) {
        CommandKind::Ignored
    } else {
        CommandKind::Unknown
    }
}

fn field_is(field: &Vec<u8>, name: &[u8]) -> (r: bool)
    requires
        name@.len() <= 12,
    ensures
        r == (field@ == padded_command(name@)),
{
    let mut padded: Vec<u8> = Vec::new();
    let mut i: usize = 0;
    while i < COMMAND_SIZE
        invariant
            i <= 12,
            name@.len() <= 12,
            padded@.len() == i,
            forall|k: int| 0 <= k < i ==> #[trigger] padded@[k] == padded_command(name@)[k],
        decreases 12 - i,
    {
        if i < name.len() {
            padded.push(name[i]);
        } else {
            padded.push(0u8);
        }
        i = i + 1;
    }
    assert(padded@ =~= padded_command(name@));
    bytes_equal(field, &padded)
}

/// Classifies a frame's command field.
pub fn classify_command(field: &Vec<u8>) -> (r: CommandKind)
    ensures
        r == command_kind(field@),
{
    let headers: [u8; 7] = [104, 101, 97, 100, 101, 114, 115];
    let block: [u8; 5] = [98, 108, 111, 99, 107];
    let ping: [u8; 4] = [112, 105, 110, 103];
    let notfound: [u8; 8] = [110, 111, 116, 102, 111, 117, 110, 100];
    let alert: [u8; 5] = [97, 108, 101, 114, 116];
    let addr: [u8; 4] = [97, 100, 100, 114];
    let inv: [u8; 3] = [105, 110, 118];
    let sendheaders: [u8; 11] = [115, 101, 110, 100, 104, 101, 97, 100, 101, 114, 115];
    assert(headers@ =~= cmd_headers());
    assert(block@ =~= cmd_block());
    assert(ping@ =~= cmd_ping());
    assert(notfound@ =~= cmd_notfound());
    assert(alert@ =~= cmd_alert());
    assert(addr@ =~= cmd_addr());
    assert(inv@ =~= cmd_inv());
    assert(sendheaders@ =~= cmd_sendheaders());
    if field_is(field, &headers) {
        CommandKind::Headers
    } else if field_is(field, &block) {
        CommandKind::Block
    } else if field_is(field, &ping) {
        CommandKind::Ping
    } else if field_is(field, &notfound) {
        CommandKind::NotFound
    } else if field_is(field, &alert) || field_is(field, &addr) || field_is(field, &inv)
        || field_is(field, &sendheaders) {
        CommandKind::Ignored
    } else {
        CommandKind::Unknown
    }
}

/// What a peer loop hands to the node core.
#[derive(Debug)]
pub enum NodeAction {
    /// A page of headers that parsed and passed proof of work.
    NewHeaders(Headers),
    /// A `headers` payload that failed to parse: ask another peer.
    GetHeadersError,
    /// A block whose transactions match its header's Merkle root, with the
    /// header's hash.
    Block(Vec<u8>, Block),
    /// Items a peer could not deliver: ask another peer.
    GetDataError(Vec<Inventory>),
}

/// The decision on a `headers` message.
#[derive(Debug)]
pub struct HeadersStep {
    /// When set, send a `getheaders` with this locator before forwarding.
    pub request_after: Option<Vec<u8>>,
    pub action: NodeAction,
}

/// Decides what to do with the result of parsing a `headers` payload: a
/// page is forwarded, and a full page of 2000 headers also asks for the
/// headers after its last one; a failed parse is reported as an error
/// action.
pub fn headers_step(parsed: Result<Headers, CustomError>) -> (r: HeadersStep)
    ensures
        match parsed {
            Ok(page) => {
                &&& r.action is NewHeaders
                &&& r.action->NewHeaders_0@ == page@
                &&& page@.len() == 2000 ==> r.request_after is Some && r.request_after->Some_0@
                    == header_hash(page@.last())
                &&& page@.len() != 2000 ==> r.request_after is None
            },
            Err(_) => r.action is GetHeadersError && r.request_after is None,
        },
{
    match parsed {
        Ok(page) => {
            let n = page.headers.len();
            let request_after = if n == HEADERS_PAGE_LIMIT {
                Some(page.headers[n - 1].hash())
            } else {
                None
            };
            HeadersStep { request_after, action: NodeAction::NewHeaders(page) }
        },
        Err(_) => HeadersStep { request_after: None, action: NodeAction::GetHeadersError },
    }
}

/// The decision on a `block` message.
#[derive(Debug)]
pub struct BlockStep {
    pub action: NodeAction,
    /// Whether to log that the block's Merkle root did not match.
    pub log_invalid: bool,
}

/// Decides what to do with a received block: a block whose transactions
/// give its header's Merkle root is forwarded with its hash; otherwise the
/// block is asked for again, by its hash, and the mismatch is logged.
pub fn block_step(block: Block) -> (r: BlockStep)
    ensures
        merkle_matches(block.header.merkle_root@, deep(block.transactions@)) ==> {
            &&& r.action is Block
            &&& r.action->Block_0@ == header_hash(block.header@)
            &&& r.action->Block_1.header@ == block.header@
            &&& deep(r.action->Block_1.transactions@) == deep(block.transactions@)
            &&& !r.log_invalid
        },
        !merkle_matches(block.header.merkle_root@, deep(block.transactions@)) ==> {
            &&& r.action is GetDataError
            &&& inv_view(r.action->GetDataError_0@) == seq![
                (InventoryType::Block, header_hash(block.header@)),
            ]
            &&& r.log_invalid
        },
{
    let hash = block.header.hash();
    match block.create_merkle_root() {
        Ok(_) => BlockStep { action: NodeAction::Block(hash, block), log_invalid: false },
        Err(_) => {
            let inventory = Inventory::new(InventoryType::Block, hash);
            let v = vec![inventory];
            assert(inv_view(v@) =~= seq![(InventoryType::Block, header_hash(block.header@))]);
            BlockStep { action: NodeAction::GetDataError(v), log_invalid: true }
        },
    }
}

/// The action for a `notfound` message: its items are reported so that
/// another peer can be asked.
pub fn notfound_action(inventories: Vec<Inventory>) -> (r: NodeAction)
    ensures
        r is GetDataError,
        inv_view(r->GetDataError_0@) == inv_view(inventories@),
{
    NodeAction::GetDataError(inventories)
}

/// The answer to a `ping`: a `pong` with the same nonce.
pub fn answer_ping(ping: Ping) -> (r: Pong)
    ensures
        r.nonce == ping.nonce,
{
    Pong { nonce: ping.nonce }
}

} // verus!
