use tonos_cli::direct::{
    account_info_text, account_reply, account_type_name, control_result, record_account_reply,
    render_existing_account, AccountInfo, AccountStatus, ControlReply,
};

fn info() -> AccountInfo {
    AccountInfo {
        status: AccountStatus::Active,
        balance: 1500,
        address: Some("0:ab".to_string()),
        code_hash: Some("cafe".to_string()),
        last_paid: 42,
        last_trans_lt: 255,
        data_boc: vec![1, 2, 3],
    }
}

#[test]
fn missing_account_report() {
    assert_eq!(account_info_text(&None), "{\n\"acc_type_name\":\t\"Nonexist\"\n}");
}

#[test]
fn existing_account_report() {
    let expected = "{\n\"acc_type_name\":\t\"Active\",\n\"id\":\t\"0:ab\",\n\"code_hash\":\t\"cafe\",\n\"balance\":\t\"1500\",\n\"last_paid\":\t42,\n\"last_trans_lt\":\t\"0xff\",\n\"data\":\t\"AQID\"\n}";
    assert_eq!(account_info_text(&Some(info())), expected);
    let (text, bytes) = account_reply(&Some(info()));
    assert_eq!(text, expected);
    assert_eq!(bytes, expected.as_bytes().to_vec());
}

#[test]
fn report_without_address_and_hash() {
    let mut i = info();
    i.address = None;
    i.code_hash = None;
    i.status = AccountStatus::Frozen;
    let expected = "{\n\"acc_type_name\":\t\"Frozen\",\n\"balance\":\t\"1500\",\n\"last_paid\":\t42,\n\"last_trans_lt\":\t\"0xff\",\n\"data\":\t\"D\"\n}";
    assert_eq!(render_existing_account(&i, "D"), expected);
}

#[test]
fn status_names() {
    assert_eq!(account_type_name(AccountStatus::Uninit), "Uninit");
    assert_eq!(account_type_name(AccountStatus::Frozen), "Frozen");
    assert_eq!(account_type_name(AccountStatus::Active), "Active");
    assert_eq!(account_type_name(AccountStatus::Nonexist), "Nonexist");
}

#[test]
fn replies_are_collected_until_one_fails() {
    let mut got = Vec::new();
    assert_eq!(record_account_reply(&mut got, Ok("r1".to_string())), Ok(()));
    assert_eq!(record_account_reply(&mut got, Ok("r2".to_string())), Ok(()));
    assert_eq!(
        record_account_reply(&mut got, Err("timeout".to_string())),
        Err("failed ControlClient process_command: timeout".to_string())
    );
    assert_eq!(got, vec!["r1".to_string(), "r2".to_string()]);
}

#[test]
fn control_replies() {
    assert_eq!(
        control_result("q", ControlReply::QueryFailed("closed".to_string())),
        Err("Error receiving answer: closed".to_string())
    );
    assert_eq!(
        control_result("q", ControlReply::ErrorResponse("e".to_string())),
        Err("Error response to q: e".to_string())
    );
    assert_eq!(
        control_result("q", ControlReply::Answer(Err("a".to_string()))),
        Err("Wrong response to q: a".to_string())
    );
    assert_eq!(
        control_result("q", ControlReply::Answer(Ok(("ok".to_string(), vec![1])))),
        Ok(("ok".to_string(), vec![1]))
    );
}

#[test]
fn data_is_written_in_padded_standard_base64() {
    let with_data = |data: Vec<u8>| {
        let mut i = info();
        i.data_boc = data;
        let text = account_info_text(&Some(i));
        let start = text.find("\"data\":\t\"").unwrap() + 9;
        text[start..text.len() - 3].to_string()
    };
    assert_eq!(with_data(vec![]), "");
    assert_eq!(with_data(vec![255]), "/w==");
    assert_eq!(with_data(vec![255, 254]), "//4=");
    assert_eq!(with_data(b"hello".to_vec()), "aGVsbG8=");
    assert_eq!(with_data(vec![0, 16, 131, 16, 81, 135, 32, 146, 139, 48, 211, 143]), "ABCDEFGHIJKLMNOP");
    assert_eq!(with_data(vec![251, 255, 191]), "+/+/");
}
