//! The logic of the `direct` node link: the account report it writes, and how
//! it turns the replies of the node's control interface into results.
use vstd::prelude::*;

use vstd::utf8::encode_utf8;

use crate::text::{decimal, decimal_string, hex_prefixed, hex_prefixed_string};

verus! {

broadcast use vstd::string::group_string_axioms;

/// Status of an account on the blockchain.
#[derive(PartialEq, Eq, Structural, Clone, Copy, Debug)]
pub enum AccountStatus {
    Uninit,
    Frozen,
    Active,
    Nonexist,
}

/// The fields of an existing account that its report shows.
pub struct AccountInfo {
    pub status: AccountStatus,
    /// Balance in nanotokens (zero when the account states none).
    pub balance: u128,
    /// The account address, as text.
    pub address: Option<String>,
    /// The code hash, in hexadecimal.
    pub code_hash: Option<String>,
    pub last_paid: u32,
    pub last_trans_lt: u64,
    /// The serialized account cell (bag of cells).
    pub data_boc: Vec<u8>,
}

/// The name of a status in the report.
pub open spec fn status_name(s: AccountStatus) -> Seq<char> {
    match s {
        AccountStatus::Uninit => "Uninit"@,
        AccountStatus::Frozen => "Frozen"@,
        AccountStatus::Active => "Active"@,
        AccountStatus::Nonexist => "Nonexist"@,
    }
}

/// The name of a status in the report.
pub fn account_type_name(s: AccountStatus) -> (res: &'static str)
    ensures
        res@ == status_name(s),
{
    match s {
        AccountStatus::Uninit => "Uninit",
        AccountStatus::Frozen => "Frozen",
        AccountStatus::Active => "Active",
        AccountStatus::Nonexist => "Nonexist",
    }
}

/// The letter of a six-bit value in the standard base64 alphabet:
/// `A`–`Z`, `a`–`z`, `0`–`9`, `+`, `/`.
pub open spec fn base64_letter(v: int) -> char {
    if v < 26 {
        ('A' as int + v) as char
    } else if v < 52 {
        ('a' as int + (v - 26)) as char
    } else if v < 62 {
        ('0' as int + (v - 52)) as char
    } else if v == 62 {
        '+'
    } else {
        '/'
    }
}

/// The base64 text of `bytes` in the standard alphabet with `=` padding: each
/// group of three bytes (24 bits) becomes four letters of six bits each, high
/// bits first; a last group of one or two bytes is filled with zero bits and
/// padded with `=` to four characters.
pub open spec fn base64_text(bytes: Seq<u8>) -> Seq<char>
    decreases bytes.len(),
{
    if bytes.len() == 0 {
        seq![]
    } else if bytes.len() == 1 {
        let x = bytes[0] as int;
        seq![base64_letter(x / 4), base64_letter((x % 4) * 16), '=', '=']
    } else if bytes.len() == 2 {
        let x = bytes[0] as int;
        let y = bytes[1] as int;
        seq![
            base64_letter(x / 4),
            base64_letter((x % 4) * 16 + y / 16),
            base64_letter((y % 16) * 4),
            '=',
        ]
    } else {
        let x = bytes[0] as int;
        let y = bytes[1] as int;
        let z = bytes[2] as int;
        seq![
            base64_letter(x / 4),
            base64_letter((x % 4) * 16 + y / 16),
            base64_letter((y % 16) * 4 + z / 64),
            base64_letter(z % 64),
        ] + base64_text(bytes.skip(3))
    }
}

/// Calls `base64::encode`, which encodes with the standard alphabet and `=`
/// padding.
/// Trusted: the result is [`base64_text`] of `bytes`.
#[verifier::external_body]
fn encode_base64(bytes: &Vec<u8>) -> (res: String)
    ensures
        res@ == base64_text(bytes@),
{
    base64::encode(bytes)
}

/// The report of an account that exists, given the base64 text of its data.
pub open spec fn existing_account_report(info: AccountInfo, data: Seq<char>) -> Seq<char> {
    "{"@ + "\n\""@ + "acc_type_name\":\t\""@ + status_name(info.status) + "\",\n\""@ + (match info.address {
        Some(a) => "id\":\t\""@ + a@ + "\",\n\""@,
        None => Seq::<char>::empty(),
    }) + (match info.code_hash {
        Some(h) => "code_hash\":\t\""@ + h@ + "\",\n\""@,
        None => Seq::<char>::empty(),
    }) + "balance\":\t\""@ + decimal(info.balance as nat) + "\",\n\""@ + "last_paid\":\t"@
        + decimal(info.last_paid as nat) + ",\n\""@ + "last_trans_lt\":\t\""@ + hex_prefixed(
        info.last_trans_lt as nat,
    ) + "\",\n\""@ + "data\":\t\""@ + data + "\"\n}"@
}

/// The report of an account that does not exist.
pub open spec fn missing_account_report() -> Seq<char> {
    "{"@ + "\n\""@ + "acc_type_name\":\t\""@ + "Nonexist"@ + "\"\n}"@
}

/// The report of an account that exists, given the base64 text of its data:
/// a JSON-like object with the account type, the address and code hash when
/// known, the decimal balance, the decimal time of last payment, the
/// hexadecimal logical time of the last transaction, and the data.
pub fn render_existing_account(info: &AccountInfo, data_base64: &str) -> (res: String)
    ensures
        res@ == existing_account_report(*info, data_base64@),
{
    let mut s = String::from_str("{");
    s.append("\n\"");
    s.append("acc_type_name\":\t\"");
    s.append(account_type_name(info.status));
    s.append("\",\n\"");
    let ghost head = s@;
    match &info.address {
        Some(a) => {
            s.append("id\":\t\"");
            s.append(a.as_str());
            s.append("\",\n\"");
        },
        None => {},
    }
    let ghost with_id = s@;
    match &info.code_hash {
        Some(h) => {
            s.append("code_hash\":\t\"");
            s.append(h.as_str());
            s.append("\",\n\"");
        },
        None => {},
    }
    let ghost with_hash = s@;
    s.append("balance\":\t\"");
    let balance = decimal_string(info.balance);
    s.append(balance.as_str());
    s.append("\",\n\"");
    s.append("last_paid\":\t");
    let last_paid = decimal_string(info.last_paid as u128);
    s.append(last_paid.as_str());
    s.append(",\n\"");
    s.append("last_trans_lt\":\t\"");
    let lt = hex_prefixed_string(info.last_trans_lt);
    s.append(lt.as_str());
    s.append("\",\n\"");
    s.append("data\":\t\"");
    s.append(data_base64);
    s.append("\"\n}");
    proof {
        assert(with_id == head + (match info.address {
            Some(a) => "id\":\t\""@ + a@ + "\",\n\""@,
            None => Seq::<char>::empty(),
        }));
        assert(with_hash == with_id + (match info.code_hash {
            Some(h) => "code_hash\":\t\""@ + h@ + "\",\n\""@,
            None => Seq::<char>::empty(),
        }));
        assert(s@ =~= existing_account_report(*info, data_base64@));
    }
    s
}

/// The report of an account that does not exist.
pub fn render_missing_account() -> (res: String)
    ensures
        res@ == missing_account_report(),
{
    let mut s = String::from_str("{");
    s.append("\n\"");
    s.append("acc_type_name\":\t\"");
    s.append("Nonexist");
    s.append("\"\n}");
    s
}

/// The report of an account state as the node returns it: `None` for an
/// account the node does not know.
pub open spec fn account_report(state: Option<AccountInfo>) -> Seq<char> {
    match state {
        Some(info) => existing_account_report(info, base64_text(info.data_boc@)),
        None => missing_account_report(),
    }
}

/// The report of an account state, with its data written in base64.
pub fn account_info_text(state: &Option<AccountInfo>) -> (res: String)
    ensures
        res@ == account_report(*state),
{
    match state {
        Some(info) => {
            let data = encode_base64(&info.data_boc);
            render_existing_account(info, data.as_str())
        },
        None => render_missing_account(),
    }
}

/// The reply to an account query: the report, and its UTF-8 bytes.
pub fn account_reply(state: &Option<AccountInfo>) -> (res: (String, Vec<u8>))
    ensures
        res.0@ == account_report(*state),
        res.1@ == encode_utf8(res.0@),
{
    let text = account_info_text(state);
    let bytes = text.as_str().as_bytes_vec();
    (text, bytes)
}

/// The message of a failed control command.
pub open spec fn failed_command_message(e: Seq<char>) -> Seq<char> {
    "failed ControlClient process_command: "@ + e
}

/// Records the reply to one account query: its report is appended to
/// `collected`, or the failure becomes the error of the whole query.
pub fn record_account_reply(collected: &mut Vec<String>, reply: Result<String, String>) -> (res:
    Result<(), String>)
    ensures
        match reply {
            Ok(r) => res is Ok && final(collected)@ == old(collected)@.push(r),
            Err(e) => res matches Err(m) && m@ == failed_command_message(e@) && final(collected)@
                == old(collected)@,
        },
{
    match reply {
        Ok(r) => {
            collected.push(r);
            Ok(())
        },
        Err(e) => {
            let mut m = String::from_str("failed ControlClient process_command: ");
            m.append(e.as_str());
            Err(m)
        },
    }
}

/// What the node's control interface answered to a command.
pub enum ControlReply {
    /// The query could not be sent or its answer not received (why).
    QueryFailed(String),
    /// The node reported an error (its description).
    ErrorResponse(String),
    /// The command's own reading of the answer: its result, or the answer it
    /// could not read (its description).
    Answer(Result<(String, Vec<u8>), String>),
}

/// The result of a command, given its description and the node's reply.
pub open spec fn control_result_of(query: Seq<char>, reply: ControlReply) -> Result<
    (Seq<char>, Seq<u8>),
    Seq<char>,
> {
    match reply {
        ControlReply::QueryFailed(e) => Err("Error receiving answer: "@ + e@),
        ControlReply::ErrorResponse(e) => Err("Error response to "@ + query + ": "@ + e@),
        ControlReply::Answer(Ok(r)) => Ok((r.0@, r.1@)),
        ControlReply::Answer(Err(a)) => Err("Wrong response to "@ + query + ": "@ + a@),
    }
}

/// The result of a command: the command's reading of the answer, or an error
/// that says the answer was not received, or names the command and the error
/// or unreadable answer.
pub fn control_result(query: &str, reply: ControlReply) -> (res: Result<(String, Vec<u8>), String>)
    ensures
        match (res, control_result_of(query@, reply)) {
            (Ok(r), Ok(v)) => r.0@ == v.0 && r.1@ == v.1,
            (Err(m), Err(v)) => m@ == v,
            _ => false,
        },
{
    match reply {
        ControlReply::QueryFailed(e) => {
            let mut m = String::from_str("Error receiving answer: ");
            m.append(e.as_str());
            Err(m)
        },
        ControlReply::ErrorResponse(e) => {
            let mut m = String::from_str("Error response to ");
            m.append(query);
            m.append(": ");
            m.append(e.as_str());
            Err(m)
        },
        ControlReply::Answer(Ok(r)) => Ok(r),
        ControlReply::Answer(Err(a)) => {
            let mut m = String::from_str("Wrong response to ");
            m.append(query);
            m.append(": ");
            m.append(a.as_str());
            Err(m)
        },
    }
}

/// The head of every report of an existing account: the opening brace and
/// the account type.
pub open spec fn report_head(status: AccountStatus) -> Seq<char> {
    "{"@ + "\n\""@ + "acc_type_name\":\t\""@ + status_name(status) + "\",\n\""@
}

/// The report of an existing account starts with its type; whenever the
/// account has an address `a`, the line `"id":<TAB>"a",` follows right after,
/// whether or not the account has a code hash; and the report ends with its
/// data.
pub proof fn lemma_report_id_line(info: AccountInfo, data: Seq<char>)
    ensures
        existing_account_report(info, data).len() >= report_head(info.status).len(),
        existing_account_report(info, data).subrange(0, report_head(info.status).len() as int)
            == report_head(info.status),
        info.address matches Some(a) ==> {
            let h = report_head(info.status).len() as int;
            let line = "id\":\t\""@ + a@ + "\",\n\""@;
            &&& existing_account_report(info, data).len() >= h + line.len()
            &&& existing_account_report(info, data).subrange(h, h + line.len()) == line
        },
        ({
            let r = existing_account_report(info, data);
            let tail = "data\":\t\""@ + data + "\"\n}"@;
            r.len() >= tail.len() && r.subrange(r.len() - tail.len(), r.len() as int) == tail
        }),
{
    let r = existing_account_report(info, data);
    let head = report_head(info.status);
    let id_part = match info.address {
        Some(a) => "id\":\t\""@ + a@ + "\",\n\""@,
        None => Seq::<char>::empty(),
    };
    let hash_part = match info.code_hash {
        Some(h) => "code_hash\":\t\""@ + h@ + "\",\n\""@,
        None => Seq::<char>::empty(),
    };
    let rest = "balance\":\t\""@ + decimal(info.balance as nat) + "\",\n\""@ + "last_paid\":\t"@
        + decimal(info.last_paid as nat) + ",\n\""@ + "last_trans_lt\":\t\""@ + hex_prefixed(
        info.last_trans_lt as nat,
    ) + "\",\n\""@;
    let tail = "data\":\t\""@ + data + "\"\n}"@;
    assert(r =~= head + id_part + hash_part + rest + tail);
    assert(r.subrange(0, head.len() as int) =~= head);
    assert(r.subrange(head.len() as int, (head.len() + id_part.len()) as int) =~= id_part);
    assert(r.subrange(r.len() - tail.len(), r.len() as int) =~= tail);
}

} // verus!
