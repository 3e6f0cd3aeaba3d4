use enigmatic::cli::cli_command::Access;
use enigmatic::cli::session::{listing, look_up, secret_source, show, SecretSource, Shown};
use enigmatic::cli::{Cli, CliCommand};
use enigmatic::domain::entries::EntryService;
use enigmatic::domain::passwords::ensure_password::PasswordStep;
use enigmatic::domain::passwords::{ensure_new_password, ensure_password};
use enigmatic::domain::secrets::generator::{
    can_generate, compose, finish, read_format, Format, FormatFault, PoolChoice,
};
use enigmatic::domain::secrets::generate;
use enigmatic::storage::registries::RegistryRepository;
use std::path::PathBuf;

fn s(text: &str) -> String {
    String::from(text)
}

fn choice(letters: &str) -> PoolChoice {
    PoolChoice {
        lowercase: letters.contains('l'),
        uppercase: letters.contains('u'),
        digits: letters.contains('d'),
        symbols: letters.contains('s'),
    }
}

fn asked(format: &str) -> Result<(usize, bool, bool, bool, bool), FormatFault> {
    read_format(format).map(|Format { length, choice }| {
        (length, choice.lowercase, choice.uppercase, choice.digits, choice.symbols)
    })
}

#[test]
fn only_commands_that_hand_a_secret_out_need_the_password() {
    assert_eq!(CliCommand::Init { name: None, password: None }.access(), Access::Create);
    assert_eq!(CliCommand::Ls {}.access(), Access::Encrypt);
    assert_eq!(CliCommand::Copy { name: s("a"), password: None }.access(), Access::Decrypt);
    assert_eq!(
        CliCommand::Show { name: s("a"), password: None, copy: false }.access(),
        Access::Decrypt
    );
    assert_eq!(
        CliCommand::Add {
            name: s("a"),
            description: None,
            secret: Some(s("x")),
            generate: None,
            copy: false
        }
        .access(),
        Access::Encrypt
    );
    assert_eq!(
        CliCommand::Update {
            name: s("a"),
            new_name: None,
            description: None,
            secret: None,
            generate: None,
            copy: false
        }
        .access(),
        Access::Encrypt
    );
    assert_eq!(CliCommand::Del { name: s("a") }.access(), Access::Encrypt);
}

#[test]
fn the_storage_of_the_users_choice_goes_first() {
    let chosen = PathBuf::from("/tmp/vault");
    let usual = PathBuf::from("/home/u/.enigmatic");
    assert_eq!(Cli::storage_or(Some(chosen.clone()), Some(usual.clone())), Some(chosen.clone()));
    assert_eq!(Cli::storage_or(Some(chosen.clone()), None), Some(chosen));
    assert_eq!(Cli::storage_or(None, Some(usual.clone())), Some(usual));
    assert_eq!(Cli::storage_or(None, None), None);
}

#[test]
fn a_command_line_holds_its_options_and_its_command() {
    let cli = Cli { storage: None, debug: 2, command: CliCommand::Del { name: s("a") } };
    assert_eq!(cli.storage, None);
    assert_eq!(cli.debug, 2);
    assert_eq!(cli.command.access(), Access::Encrypt);
}

#[test]
fn a_given_secret_goes_before_a_format() {
    assert_eq!(secret_source(Some(s("pw")), Some(s("8:l"))), SecretSource::Given(s("pw")));
    assert_eq!(secret_source(Some(s("pw")), None), SecretSource::Given(s("pw")));
    assert_eq!(secret_source(None, Some(s("8:l"))), SecretSource::Generate(s("8:l")));
    assert_eq!(secret_source(None, None), SecretSource::Keep);
}

#[test]
fn what_is_shown_of_a_secret() {
    assert_eq!(
        show(&s("prod"), Some(b"hunter2".to_vec())),
        Shown::Secret { description: s("prod"), secret: s("hunter2") }
    );
    assert_eq!(show(&s("prod"), None), Shown::Undecryptable);
    assert_eq!(show(&s("prod"), Some(vec![0xff, 0xfe])), Shown::NotText);
}

#[test]
fn looking_a_secret_up() {
    let mut service =
        EntryService::new(RegistryRepository::init("test", "pw").unwrap()).unwrap();
    service.add(s("mail"), s("inbox"), b"hunter2".to_vec()).unwrap();
    service.add(s("blob"), s("bytes"), vec![0xff, 0xfe]).unwrap();
    assert_eq!(
        look_up(&service, &s("mail")),
        Shown::Secret { description: s("inbox"), secret: s("hunter2") }
    );
    assert_eq!(look_up(&service, &s("blob")), Shown::NotText);
    assert_eq!(look_up(&service, &s("nope")), Shown::Missing);
    let image = service.registry_repository().image().clone();
    let locked = EntryService::new(RegistryRepository::open(image).unwrap()).unwrap();
    assert_eq!(look_up(&locked, &s("mail")), Shown::Undecryptable);
    assert_eq!(look_up(&locked, &s("nope")), Shown::Missing);
}

#[test]
fn the_listing_names_every_entry_once() {
    let mut service =
        EntryService::new(RegistryRepository::assemble("t", vec![], vec![], vec![]).unwrap())
            .unwrap();
    service.record_add(s("b"), s("second"), vec![], 1).unwrap();
    service.record_add(s("a"), s("first"), vec![], 2).unwrap();
    service.record_add(s("c"), s("third"), vec![], 3).unwrap();
    service.record_del(s("c"), 4).unwrap();
    service.record_set(s("b"), None, Some(s("changed")), None, 5).unwrap();
    let mut lines = listing(&service);
    lines.sort();
    assert_eq!(lines, vec![(s("a"), s("first")), (s("b"), s("changed"))]);
}

#[test]
fn a_password_that_is_given_is_not_asked_for() {
    assert_eq!(ensure_password(Some(s("a")), Some(s("b")), Some(s("c"))), PasswordStep::Ready(s("a")));
    assert_eq!(ensure_password(None, Some(s("b")), Some(s("c"))), PasswordStep::Ready(s("b")));
    assert_eq!(ensure_password(None, None, Some(s("c"))), PasswordStep::Ready(s("c")));
    assert_eq!(ensure_password(None, None, None), PasswordStep::Prompt);
}

#[test]
fn a_new_password_is_typed_twice() {
    assert_eq!(
        ensure_new_password(Some(s("a")), Some(s("b")), Some((s("c"), s("d")))),
        PasswordStep::Ready(s("a"))
    );
    assert_eq!(ensure_new_password(None, Some(s("b")), None), PasswordStep::Ready(s("b")));
    assert_eq!(ensure_new_password(None, None, None), PasswordStep::Prompt);
    assert_eq!(
        ensure_new_password(None, None, Some((s("c"), s("c")))),
        PasswordStep::Ready(s("c"))
    );
    assert_eq!(
        ensure_new_password(None, None, Some((s("c"), s("d")))),
        PasswordStep::PromptAgain
    );
}

#[test]
fn a_format_is_a_length_a_colon_and_letters() {
    assert_eq!(asked("16:lud"), Ok((16, true, true, true, false)));
    assert_eq!(asked("0:s"), Ok((0, false, false, false, true)));
    assert_eq!(asked("7:"), Ok((7, false, false, false, false)));
    assert_eq!(asked("+12:l"), Ok((12, true, false, false, false)));
    assert_eq!(asked("007:d"), Ok((7, false, false, true, false)));
    assert_eq!(asked("3:xyz"), Ok((3, false, false, false, false)));
    assert_eq!(asked("3:ld:s u"), Ok((3, true, true, true, true)));
    assert_eq!(asked("3:LUDS"), Ok((3, false, false, false, false)));
}

#[test]
fn a_format_without_a_colon_has_no_separator() {
    assert_eq!(asked("16"), Err(FormatFault::MissingSeparator));
    assert_eq!(asked(""), Err(FormatFault::MissingSeparator));
    assert_eq!(asked("lud"), Err(FormatFault::MissingSeparator));
}

#[test]
fn what_stands_before_the_colon_must_be_a_length() {
    for format in [":l", "+:l", "-3:l", "3 :l", " 3:l", "x:l", "1x:l", "١:l", "++1:l", "1+:l"] {
        assert_eq!(asked(format), Err(FormatFault::InvalidLength), "{}", format);
    }
    assert_eq!(asked("99999999999999999999999999:l"), Err(FormatFault::InvalidLength));
}

#[test]
fn the_length_goes_up_to_what_the_machine_can_count() {
    let most = format!("{}:l", usize::MAX);
    assert_eq!(asked(&most), Ok((usize::MAX, true, false, false, false)));
    let more = format!("{}0:l", usize::MAX);
    assert_eq!(asked(&more), Err(FormatFault::InvalidLength));
    let one_more = format!("{}:l", usize::MAX as u128 + 1);
    assert_eq!(asked(&one_more), Err(FormatFault::InvalidLength));
}

#[test]
fn every_byte_picks_the_character_at_its_remainder() {
    assert_eq!(compose(choice("l"), &[0, 1, 25, 26, 27, 255]), Ok(s("abzabv")));
    assert_eq!(compose(choice("d"), &[0, 9, 10, 19, 255]), Ok(s("09095")));
    assert_eq!(compose(choice("u"), &[0, 25, 26]), Ok(s("AZA")));
    assert_eq!(compose(choice("s"), &[0, 1, 26, 27, 28]), Ok(s("~`\\|~")));
}

#[test]
fn the_pool_holds_its_classes_in_order() {
    let all: Vec<u8> = (0..90).collect();
    assert_eq!(
        compose(choice("luds"), &all),
        Ok(s("abcdefghijklmnopqrstuvwxyzABCDEFGHIJKLMNOPQRSTUVWXYZ0123456789~`!@#$%^&*()_+-=,.<>/?[]{}\\|"))
    );
    assert_eq!(compose(choice("ld"), &[25, 26, 35, 36]), Ok(s("z09a")));
    assert_eq!(compose(choice("us"), &[26, 53, 54]), Ok(s("~|A")));
}

#[test]
fn an_empty_pool_gives_only_the_empty_secret() {
    assert_eq!(compose(choice(""), &[]), Ok(s("")));
    assert_eq!(compose(choice(""), &[1]), Err(FormatFault::EmptyPool));
    assert_eq!(compose(choice("l"), &[]), Ok(s("")));
}

#[test]
fn a_random_source_that_fails_gives_no_secret() {
    assert_eq!(finish(choice("l"), None), Err(FormatFault::NoRandomness));
    assert_eq!(finish(choice(""), None), Err(FormatFault::NoRandomness));
    assert_eq!(finish(choice("l"), Some(vec![2, 28])), Ok(s("cc")));
    assert_eq!(finish(choice(""), Some(vec![2])), Err(FormatFault::EmptyPool));
}

#[test]
fn a_generated_secret_has_the_length_and_the_characters_asked_for() {
    let secret = generate("40:ld").unwrap();
    assert_eq!(secret.chars().count(), 40);
    assert!(secret.chars().all(|c| c.is_ascii_lowercase() || c.is_ascii_digit()));
    let secret = generate("64:s").unwrap();
    assert_eq!(secret.len(), 64);
    assert!(secret.chars().all(|c| "~`!@#$%^&*()_+-=,.<>/?[]{}\\|".contains(c)));
    assert_ne!(generate("32:luds").unwrap(), generate("32:luds").unwrap());
}

#[test]
fn a_secret_of_no_length_is_the_empty_one() {
    assert_eq!(generate("0:"), Ok(s("")));
    assert_eq!(generate("0:l"), Ok(s("")));
    assert_eq!(generate("+0:xyz"), Ok(s("")));
}

#[test]
fn a_secret_can_be_made_up_after_a_format_that_reads_and_chooses() {
    for format in ["16:lud", "1:s", "0:", "0:xyz", "+3:u", "3:ld:s"] {
        assert!(can_generate(format), "{}", format);
    }
}

#[test]
fn no_secret_can_be_made_up_after_a_format_that_does_not_read_or_chooses_nothing() {
    for format in ["12", "", "twelve:l", ":l", "-1:l", "12:", "12:xyz", "1:LUDS"] {
        assert!(!can_generate(format), "{}", format);
    }
    assert!(can_generate(&format!("{}:l", isize::MAX)));
    assert!(!can_generate(&format!("{}:l", usize::MAX)));
    assert_eq!(asked("12"), Err(FormatFault::MissingSeparator));
    assert_eq!(asked("twelve:l"), Err(FormatFault::InvalidLength));
    assert_eq!(finish(choice("xyz"), Some(vec![0; 12])), Err(FormatFault::EmptyPool));
}
