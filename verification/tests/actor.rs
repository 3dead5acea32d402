use iota_wallet::account_manager::AccountIdentifier;
use iota_wallet::actor::message::{AccountMethod, AccountToCreate, Message, MessageType, Response, ResponseType};
use iota_wallet::client::ClientOptions;
use iota_wallet::message::Transfer;

#[test]
fn requests_are_written_out_by_kind() {
    let id = || AccountIdentifier::Index(0);
    let cases: Vec<(MessageType, u32, &str)> = vec![
        (MessageType::RemoveAccount(id()), 0, "RemoveAccount"),
        (
            MessageType::CreateAccount(Box::new(AccountToCreate {
                client_options: ClientOptions::new(),
                alias: None,
                created_at: None,
                skip_persistence: false,
                signer_type: None,
            })),
            1,
            "CreateAccount",
        ),
        (MessageType::GetAccount(id()), 2, "GetAccount"),
        (MessageType::GetAccounts, 3, "GetAccounts"),
        (
            MessageType::CallAccountMethod { account_id: id(), method: AccountMethod::GetBalance },
            4,
            "CallAccountMethod",
        ),
        (MessageType::SyncAccounts { address_index: None, gap_limit: Some(1) }, 5, "SyncAccounts"),
        (MessageType::Reattach { account_id: id(), message_id: "m".to_string() }, 6, "Reattach"),
        (MessageType::Backup { destination: "d".to_string(), password: "p".to_string() }, 7, "Backup"),
        (
            MessageType::RestoreBackup { backup_path: "d".to_string(), password: "p".to_string() },
            8,
            "RestoreBackup",
        ),
        (MessageType::SetStoragePassword("p".to_string()), 9, "SetStoragePassword"),
        (MessageType::SetStrongholdPassword("p".to_string()), 10, "SetStrongholdPassword"),
        (
            MessageType::SetStrongholdPasswordClearInterval(5),
            11,
            "SetStrongholdPasswordClearInterval",
        ),
        (MessageType::GetStrongholdStatus, 12, "GetStrongholdStatus"),
        (MessageType::LockStronghold, 13, "LockStronghold"),
        (
            MessageType::SendTransfer {
                account_id: id(),
                transfer: Box::new(Transfer::builder("a".to_string(), 1)),
            },
            14,
            "SendTransfer",
        ),
        (
            MessageType::InternalTransfer { from_account_id: id(), to_account_id: id(), amount: 1 },
            15,
            "InternalTransfer",
        ),
        (MessageType::GenerateMnemonic, 16, "GenerateMnemonic"),
        (MessageType::VerifyMnemonic("m".to_string()), 17, "VerifyMnemonic"),
        (
            MessageType::StoreMnemonic {
                signer_type: iota_wallet::account::SignerType::Stronghold,
                mnemonic: None,
            },
            18,
            "StoreMnemonic",
        ),
        (MessageType::IsLatestAddressUnused, 19, "IsLatestAddressUnused"),
        (MessageType::GetLedgerStatus(true), 20, "GetLedgerStatus"),
        (MessageType::DeleteStorage, 21, "DeleteStorage"),
        (
            MessageType::ChangeStrongholdPassword {
                current_password: "a".to_string(),
                new_password: "b".to_string(),
            },
            22,
            "ChangeStrongholdPassword",
        ),
        (MessageType::SetClientOptions(Box::new(ClientOptions::new())), 23, "SetClientOptions"),
    ];
    for (request, index, name) in cases {
        assert_eq!(request.variant_index(), index);
        assert_eq!(request.variant_name(), name);
    }
}

#[test]
fn responses_carry_the_request() {
    let response = Response::new("7".to_string(), MessageType::GetAccounts, ResponseType::ReadAccounts(Vec::new()));
    assert_eq!(response.id, "7");
    assert!(matches!(response.action, MessageType::GetAccounts));
    assert!(matches!(response.response(), ResponseType::ReadAccounts(list) if list.is_empty()));
}

#[test]
fn messages_carry_their_sender() {
    let (sender, mut receiver) = tokio::sync::mpsc::unbounded_channel();
    let message = Message::new("9".to_string(), MessageType::DeleteStorage, sender);
    assert_eq!(message.id(), "9");
    assert!(matches!(message.message_type(), MessageType::DeleteStorage));
    message
        .response_tx()
        .send(Response::new(message.id().clone(), MessageType::DeleteStorage, ResponseType::DeletedStorage))
        .unwrap();
    let answer = receiver.try_recv().unwrap();
    assert_eq!(answer.id, "9");
    assert!(matches!(answer.response(), ResponseType::DeletedStorage));
}
