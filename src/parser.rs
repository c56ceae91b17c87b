//! Swap transactions: the description's reading, the lookup of token mints
//! among the transfers, and the assembly of the record.
use vstd::prelude::*;
use crate::description::{
    lemma_no_sentence_no_match, lemma_sentence_reads_back, leftmost_match, match_at,
    match_description, sentence, well_formed_pieces, SwapText,
};
use crate::text::{in_class, CharClass};
use crate::json::{
    field_of, find_member, json_of, number_field, number_of, parse_json, text_field, text_of, Json,
};
use crate::quantity::{
    amount_float, amount_quantity, float_text, nearest_float_text, quantities_match, same_quantity,
};
use crate::text::{opt_view, parse_u64, u64_of_text};

verus! {

/// One movement of a token within an event. `token_amount` is a quantity
/// text (see [`crate::quantity`]).
#[derive(Debug)]
pub struct TokenTransfer {
    pub from_token_account: String,
    pub from_user_account: String,
    pub mint: String,
    pub to_token_account: String,
    pub to_user_account: String,
    pub token_amount: String,
    pub token_standard: String,
}

pub ghost struct TransferView {
    pub from_token_account: Seq<char>,
    pub from_user_account: Seq<char>,
    pub mint: Seq<char>,
    pub to_token_account: Seq<char>,
    pub to_user_account: Seq<char>,
    pub token_amount: Seq<char>,
    pub token_standard: Seq<char>,
}

impl View for TokenTransfer {
    type V = TransferView;

    open spec fn view(&self) -> TransferView {
        TransferView {
            from_token_account: self.from_token_account@,
            from_user_account: self.from_user_account@,
            mint: self.mint@,
            to_token_account: self.to_token_account@,
            to_user_account: self.to_user_account@,
            token_amount: self.token_amount@,
            token_standard: self.token_standard@,
        }
    }
}

pub open spec fn transfers_view(ts: Seq<TokenTransfer>) -> Seq<TransferView> {
    ts.map_values(|t: TokenTransfer| t@)
}

/// What the description says: who swapped, and how much of which symbol
/// went out and came in. The amounts are quantity texts.
#[derive(Debug)]
pub struct TransactionMeta {
    pub sender: String,
    pub from_amount: String,
    pub to_amount: String,
    pub from_token: String,
    pub to_token: String,
}

pub ghost struct MetaView {
    pub sender: Seq<char>,
    pub from_amount: Seq<char>,
    pub to_amount: Seq<char>,
    pub from_token: Seq<char>,
    pub to_token: Seq<char>,
}

impl View for TransactionMeta {
    type V = MetaView;

    open spec fn view(&self) -> MetaView {
        MetaView {
            sender: self.sender@,
            from_amount: self.from_amount@,
            to_amount: self.to_amount@,
            from_token: self.from_token@,
            to_token: self.to_token@,
        }
    }
}

/// The normalized record of a swap. `from_token` and `to_token` are mints.
#[derive(Debug)]
pub struct Transaction {
    pub signature: String,
    pub block_slot: u64,
    pub timestamp: u64,
    pub amm: String,
    pub sender: String,
    pub from_amount: String,
    pub to_amount: String,
    pub from_token: String,
    pub to_token: String,
}

pub ghost struct TransactionView {
    pub signature: Seq<char>,
    pub block_slot: u64,
    pub timestamp: u64,
    pub amm: Seq<char>,
    pub sender: Seq<char>,
    pub from_amount: Seq<char>,
    pub to_amount: Seq<char>,
    pub from_token: Seq<char>,
    pub to_token: Seq<char>,
}

impl View for Transaction {
    type V = TransactionView;

    open spec fn view(&self) -> TransactionView {
        TransactionView {
            signature: self.signature@,
            block_slot: self.block_slot,
            timestamp: self.timestamp,
            amm: self.amm@,
            sender: self.sender@,
            from_amount: self.from_amount@,
            to_amount: self.to_amount@,
            from_token: self.from_token@,
            to_token: self.to_token@,
        }
    }
}

pub open spec fn opt_tx_view(o: Option<Transaction>) -> Option<TransactionView> {
    match o {
        Some(t) => Some(t@),
        None => None,
    }
}

pub open spec fn opt_meta_view(o: Option<TransactionMeta>) -> Option<MetaView> {
    match o {
        Some(m) => Some(m@),
        None => None,
    }
}

/// The fields of an event payload, as read from its JSON document. A field
/// is `None` where it is absent or of the wrong kind; `token_transfers` is
/// `None` also where any one entry lacks a field. `timestamp` and `slot`
/// hold the JSON text of their values.
#[derive(Debug)]
pub struct SwapEvent {
    pub description: Option<String>,
    pub token_transfers: Option<Vec<TokenTransfer>>,
    pub timestamp: Option<String>,
    pub slot: Option<String>,
    pub source: Option<String>,
    pub signature: Option<String>,
}

pub ghost struct EventView {
    pub description: Option<Seq<char>>,
    pub token_transfers: Option<Seq<TransferView>>,
    pub timestamp: Option<Seq<char>>,
    pub slot: Option<Seq<char>>,
    pub source: Option<Seq<char>>,
    pub signature: Option<Seq<char>>,
}

impl View for SwapEvent {
    type V = EventView;

    open spec fn view(&self) -> EventView {
        EventView {
            description: opt_view(self.description),
            token_transfers: match self.token_transfers {
                Some(ts) => Some(transfers_view(ts@)),
                None => None,
            },
            timestamp: opt_view(self.timestamp),
            slot: opt_view(self.slot),
            source: opt_view(self.source),
            signature: opt_view(self.signature),
        }
    }
}

pub open spec fn opt_event_view(o: Option<SwapEvent>) -> Option<EventView> {
    match o {
        Some(e) => Some(e@),
        None => None,
    }
}

/// The mint of the first transfer from index `i` on whose quantity is
/// `amount`.
pub open spec fn first_mint(ts: Seq<TransferView>, amount: Seq<char>, i: int) -> Option<Seq<char>>
    decreases ts.len() - i,
{
    if i < 0 || i >= ts.len() {
        None
    } else if same_quantity(ts[i].token_amount, amount) {
        Some(ts[i].mint)
    } else {
        first_mint(ts, amount, i + 1)
    }
}

/// Finds the mint of the first transfer whose quantity is `amount`.
pub fn find_mint_by_token_amount(transfers: &[TokenTransfer], amount: &String) -> (r: Option<
    String,
>)
    ensures
        opt_view(r) == first_mint(transfers_view(transfers@), amount@, 0),
{
    let ghost tv = transfers_view(transfers@);
    let mut i: usize = 0;
    while i < transfers.len()
        invariant
            i <= transfers@.len(),
            tv == transfers_view(transfers@),
            first_mint(tv, amount@, 0) == first_mint(tv, amount@, i as int),
        decreases transfers@.len() - i,
    {
        assert(tv[i as int] == transfers@[i as int]@);
        if quantities_match(&transfers[i].token_amount, amount) {
            return Some(transfers[i].mint.clone());
        }
        i = i + 1;
    }
    None
}

/// The reading of a matched sentence: both amounts must denote quantities.
pub open spec fn meta_of(m: SwapText) -> Option<MetaView> {
    match (amount_float(m.from_amount), amount_float(m.to_amount)) {
        (Some(f), Some(t)) => Some(
            MetaView {
                sender: m.sender,
                from_amount: f,
                to_amount: t,
                from_token: m.from_token,
                to_token: m.to_token,
            },
        ),
        _ => None,
    }
}

/// The reading of a description: its leftmost swap sentence, if there is
/// one and its amounts are numbers.
pub open spec fn description_meta(s: Seq<char>) -> Option<MetaView> {
    match leftmost_match(s, 0) {
        Some(m) => meta_of(m),
        None => None,
    }
}

/// Reads a swap description.
pub fn parse_description(input: &str) -> (r: Option<TransactionMeta>)
    ensures
        opt_meta_view(r) == description_meta(input@),
{
    let m = match match_description(input) {
        Some(m) => m,
        None => {
            return None;
        },
    };
    let from_amount = match amount_quantity(m.from_amount.as_str()) {
        Some(q) => q,
        None => {
            return None;
        },
    };
    let to_amount = match amount_quantity(m.to_amount.as_str()) {
        Some(q) => q,
        None => {
            return None;
        },
    };
    Some(
        TransactionMeta {
            sender: m.sender,
            from_amount,
            to_amount,
            from_token: m.from_token,
            to_token: m.to_token,
        },
    )
}

/// The record that a description's reading and the event's other fields
/// make: both amounts resolved to mints, timestamp and slot read as `u64`.
/// The two lookups are independent, so one transfer may serve both amounts
/// where their quantities coincide.
pub open spec fn assembled(meta: MetaView, e: EventView) -> Option<TransactionView> {
    match (e.token_transfers, e.timestamp, e.slot, e.source, e.signature) {
        (Some(ts), Some(tm), Some(sl), Some(src), Some(sig)) => match (
            first_mint(ts, meta.from_amount, 0),
            first_mint(ts, meta.to_amount, 0),
            u64_of_text(tm),
            u64_of_text(sl),
        ) {
            (Some(fm), Some(tmint), Some(t), Some(b)) => Some(
                TransactionView {
                    signature: sig,
                    block_slot: b,
                    timestamp: t,
                    amm: src,
                    sender: meta.sender,
                    from_amount: meta.from_amount,
                    to_amount: meta.to_amount,
                    from_token: fm,
                    to_token: tmint,
                },
            ),
            _ => None,
        },
        _ => None,
    }
}

/// The record of an event: its description read, then assembled.
pub open spec fn event_transaction(e: EventView) -> Option<TransactionView> {
    match e.description {
        Some(d) => match description_meta(d) {
            Some(m) => assembled(m, e),
            None => None,
        },
        None => None,
    }
}

/// Assembles the record from a description's reading and an event.
pub fn assemble_transaction(meta: TransactionMeta, event: &SwapEvent) -> (r: Option<Transaction>)
    ensures
        opt_tx_view(r) == assembled(meta@, event@),
{
    let transfers = match &event.token_transfers {
        Some(ts) => ts,
        None => {
            return None;
        },
    };
    let from_token = match find_mint_by_token_amount(transfers.as_slice(), &meta.from_amount) {
        Some(t) => t,
        None => {
            return None;
        },
    };
    let to_token = match find_mint_by_token_amount(transfers.as_slice(), &meta.to_amount) {
        Some(t) => t,
        None => {
            return None;
        },
    };
    let timestamp = match &event.timestamp {
        Some(t) => match parse_u64(t.as_str()) {
            Some(v) => v,
            None => {
                return None;
            },
        },
        None => {
            return None;
        },
    };
    let block_slot = match &event.slot {
        Some(t) => match parse_u64(t.as_str()) {
            Some(v) => v,
            None => {
                return None;
            },
        },
        None => {
            return None;
        },
    };
    let amm = match &event.source {
        Some(s) => s.clone(),
        None => {
            return None;
        },
    };
    let signature = match &event.signature {
        Some(s) => s.clone(),
        None => {
            return None;
        },
    };
    Some(
        Transaction {
            signature,
            block_slot,
            timestamp,
            amm,
            sender: meta.sender,
            from_amount: meta.from_amount,
            to_amount: meta.to_amount,
            from_token,
            to_token,
        },
    )
}

/// Reads an event's description and assembles its record.
pub fn transaction_from_event(event: &SwapEvent) -> (r: Option<Transaction>)
    ensures
        opt_tx_view(r) == event_transaction(event@),
{
    let meta = match &event.description {
        Some(d) => match parse_description(d.as_str()) {
            Some(m) => m,
            None => {
                return None;
            },
        },
        None => {
            return None;
        },
    };
    assemble_transaction(meta, event)
}

/// The transfer record that a JSON value holds: an object with every
/// field, the amount a number (held as its quantity), the others strings.
pub open spec fn transfer_of(j: Json) -> Option<TransferView> {
    match (
        text_of(field_of(j, "fromTokenAccount"@)),
        text_of(field_of(j, "fromUserAccount"@)),
        text_of(field_of(j, "mint"@)),
        text_of(field_of(j, "toTokenAccount"@)),
        text_of(field_of(j, "toUserAccount"@)),
        number_of(field_of(j, "tokenAmount"@)),
        text_of(field_of(j, "tokenStandard"@)),
    ) {
        (Some(fta), Some(fua), Some(m), Some(tta), Some(tua), Some(n), Some(ts)) => match float_text(
            n,
        ) {
            Some(q) => Some(
                TransferView {
                    from_token_account: fta,
                    from_user_account: fua,
                    mint: m,
                    to_token_account: tta,
                    to_user_account: tua,
                    token_amount: q,
                    token_standard: ts,
                },
            ),
            None => None,
        },
        _ => None,
    }
}

/// The transfer records of a JSON array, or `None` where any one element
/// is no transfer record.
pub open spec fn transfers_of(items: Seq<Json>) -> Option<Seq<TransferView>> {
    if forall|k: int| 0 <= k < items.len() ==> (#[trigger] transfer_of(items[k])) is Some {
        Some(Seq::new(items.len(), |k: int| transfer_of(items[k]).unwrap()))
    } else {
        None
    }
}

/// The event fields of a webhook document: the first element of its
/// top-level array. `description`, `source` and `signature` must be strings,
/// `timestamp` and `slot` keep the text of a number, and `tokenTransfers`
/// must be an array of transfer records.
pub open spec fn payload_event(doc: Option<Json>) -> Option<EventView> {
    match doc {
        Some(Json::Array(items)) => if items@.len() > 0 {
            let first = items@[0];
            Some(
                EventView {
                    description: text_of(field_of(first, "description"@)),
                    token_transfers: match field_of(first, "tokenTransfers"@) {
                        Some(Json::Array(a)) => transfers_of(a@),
                        _ => None,
                    },
                    timestamp: number_of(field_of(first, "timestamp"@)),
                    slot: number_of(field_of(first, "slot"@)),
                    source: text_of(field_of(first, "source"@)),
                    signature: text_of(field_of(first, "signature"@)),
                },
            )
        } else {
            None
        },
        _ => None,
    }
}

/// The record of a webhook document.
pub open spec fn document_transaction(text: Seq<char>) -> Option<TransactionView> {
    match payload_event(json_of(text)) {
        Some(e) => event_transaction(e),
        None => None,
    }
}

/// Reads one transfer record.
pub fn decode_transfer(j: &Json) -> (r: Option<TokenTransfer>)
    ensures
        match r {
            Some(t) => transfer_of(*j) == Some(t@),
            None => transfer_of(*j) is None,
        },
{
    let from_token_account = text_field(j, &"fromTokenAccount".to_owned());
    let from_user_account = text_field(j, &"fromUserAccount".to_owned());
    let mint = text_field(j, &"mint".to_owned());
    let to_token_account = text_field(j, &"toTokenAccount".to_owned());
    let to_user_account = text_field(j, &"toUserAccount".to_owned());
    let amount = number_field(j, &"tokenAmount".to_owned());
    let token_standard = text_field(j, &"tokenStandard".to_owned());
    match (
        from_token_account,
        from_user_account,
        mint,
        to_token_account,
        to_user_account,
        amount,
        token_standard,
    ) {
        (Some(fta), Some(fua), Some(m), Some(tta), Some(tua), Some(n), Some(ts)) => {
            match nearest_float_text(n.as_str()) {
                Some(q) => Some(
                    TokenTransfer {
                        from_token_account: fta,
                        from_user_account: fua,
                        mint: m,
                        to_token_account: tta,
                        to_user_account: tua,
                        token_amount: q,
                        token_standard: ts,
                    },
                ),
                None => None,
            }
        },
        _ => None,
    }
}

/// Reads the transfer records of a JSON array; one bad record spoils the
/// list.
pub fn decode_transfers(items: &Vec<Json>) -> (r: Option<Vec<TokenTransfer>>)
    ensures
        match r {
            Some(ts) => transfers_of(items@) == Some(transfers_view(ts@)),
            None => transfers_of(items@) is None,
        },
{
    let mut ts: Vec<TokenTransfer> = Vec::new();
    let mut i: usize = 0;
    while i < items.len()
        invariant
            i <= items@.len(),
            ts@.len() == i,
            forall|k: int| 0 <= k < i ==> (#[trigger] transfer_of(items@[k])) is Some,
            forall|k: int| 0 <= k < i ==> transfer_of(items@[k]) == Some(#[trigger] ts@[k]@),
        decreases items@.len() - i,
    {
        match decode_transfer(&items[i]) {
            Some(t) => {
                ts.push(t);
            },
            None => {
                return None;
            },
        }
        i = i + 1;
    }
    assert(transfers_view(ts@) =~= Seq::new(
        items@.len(),
        |k: int| transfer_of(items@[k]).unwrap(),
    ));
    Some(ts)
}

/// Reads the event payload out of a webhook document: the first element
/// of a top-level array.
pub fn decode_event(input: &str) -> (r: Option<SwapEvent>)
    ensures
        opt_event_view(r) == payload_event(json_of(input@)),
{
    let document = parse_json(input);
    let events = match &document {
        Some(Json::Array(items)) => items,
        _ => {
            return None;
        },
    };
    if events.len() == 0 {
        return None;
    }
    let event = &events[0];
    let token_transfers = match event {
        Json::Object(fs) => match find_member(fs, &"tokenTransfers".to_owned()) {
            Some(i) => match &fs[i].1 {
                Json::Array(a) => decode_transfers(a),
                _ => None,
            },
            None => None,
        },
        _ => None,
    };
    Some(
        SwapEvent {
            description: text_field(event, &"description".to_owned()),
            token_transfers,
            timestamp: number_field(event, &"timestamp".to_owned()),
            slot: number_field(event, &"slot".to_owned()),
            source: text_field(event, &"source".to_owned()),
            signature: text_field(event, &"signature".to_owned()),
        },
    )
}

/// Reads a webhook document and assembles the record of its event.
pub fn parse_transaction(input: &str) -> (r: Option<Transaction>)
    ensures
        opt_tx_view(r) == document_transaction(input@),
{
    match decode_event(input) {
        Some(event) => transaction_from_event(&event),
        None => None,
    }
}

/// A swap sentence is read as its party, its two symbols and the
/// quantities of its two amounts.
pub proof fn lemma_description_reading(p: SwapText, rest: Seq<char>)
    requires
        well_formed_pieces(p),
        rest.len() == 0 || !in_class(CharClass::Upper, rest[0]),
    ensures
        description_meta(sentence(p, rest)) == meta_of(p),
{
    lemma_sentence_reads_back(p, rest);
}

/// A text with no swap sentence in it has no reading.
pub proof fn lemma_no_sentence_no_reading(s: Seq<char>)
    requires
        forall|k: int| 0 <= k <= s.len() ==> #[trigger] match_at(s, k) is None,
    ensures
        description_meta(s) is None,
{
    lemma_no_sentence_no_match(s, 0);
}

proof fn lemma_first_mint_none(ts: Seq<TransferView>, amount: Seq<char>, i: int)
    requires
        forall|k: int| 0 <= k < ts.len() ==> !same_quantity(#[trigger] ts[k].token_amount, amount),
    ensures
        first_mint(ts, amount, i) is None,
    decreases ts.len() - i,
{
    if 0 <= i < ts.len() {
        lemma_first_mint_none(ts, amount, i + 1);
    }
}

/// Where no transfer carries the outgoing quantity, no record is made,
/// whatever the other fields hold.
pub proof fn lemma_unmatched_outgoing_fails(meta: MetaView, e: EventView)
    requires
        e.token_transfers matches Some(ts) ==> forall|k: int|
            0 <= k < ts.len() ==> !same_quantity(#[trigger] ts[k].token_amount, meta.from_amount),
    ensures
        assembled(meta, e) is None,
{
    if let Some(ts) = e.token_transfers {
        lemma_first_mint_none(ts, meta.from_amount, 0);
    }
}

/// Two records read from the same document are the same: the record
/// depends on the text alone.
pub proof fn lemma_parse_repeatable(text: Seq<char>, r1: Option<Transaction>, r2: Option<Transaction>)
    requires
        opt_tx_view(r1) == document_transaction(text),
        opt_tx_view(r2) == document_transaction(text),
    ensures
        opt_tx_view(r1) == opt_tx_view(r2),
{
}

/// The lookup takes the first transfer whose quantity is the amount itself.
pub proof fn lemma_first_mint_matches(ts: Seq<TransferView>, amount: Seq<char>, k: int)
    requires
        0 <= k < ts.len(),
        same_quantity(ts[k].token_amount, amount),
        forall|j: int| 0 <= j < k ==> !same_quantity(#[trigger] ts[j].token_amount, amount),
    ensures
        first_mint(ts, amount, 0) == Some(ts[k].mint),
{
    lemma_first_mint_from(ts, amount, k, 0);
}

proof fn lemma_first_mint_from(ts: Seq<TransferView>, amount: Seq<char>, k: int, i: int)
    requires
        0 <= i <= k < ts.len(),
        same_quantity(ts[k].token_amount, amount),
        forall|j: int| i <= j < k ==> !same_quantity(#[trigger] ts[j].token_amount, amount),
    ensures
        first_mint(ts, amount, i) == Some(ts[k].mint),
    decreases k - i,
{
    if i < k {
        lemma_first_mint_from(ts, amount, k, i + 1);
    }
}

/// A mint that the lookup returns belongs to a transfer whose quantity is
/// the amount: a quantity that differs never matches.
pub proof fn lemma_first_mint_sound(ts: Seq<TransferView>, amount: Seq<char>, i: int)
    requires
        0 <= i,
        first_mint(ts, amount, i) is Some,
    ensures
        exists|k: int|
            i <= k < ts.len() && same_quantity(#[trigger] ts[k].token_amount, amount)
                && first_mint(ts, amount, i) == Some(ts[k].mint),
    decreases ts.len() - i,
{
    if i < ts.len() && !same_quantity(ts[i].token_amount, amount) {
        lemma_first_mint_sound(ts, amount, i + 1);
        let k = choose|k: int|
            i + 1 <= k < ts.len() && same_quantity(#[trigger] ts[k].token_amount, amount)
                && first_mint(ts, amount, i + 1) == Some(ts[k].mint);
        assert(i <= k < ts.len() && same_quantity(ts[k].token_amount, amount));
    }
}

} // verus!
