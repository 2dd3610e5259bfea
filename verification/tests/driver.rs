use binpatch::Action;
use binpatch::PatchError;
use binpatch::choose_action;

#[test]
fn choose_action_accepts_p_and_u_in_both_cases() {
    assert_eq!(choose_action(Some('p')), Ok(Action::Patch));
    assert_eq!(choose_action(Some('P')), Ok(Action::Patch));
    assert_eq!(choose_action(Some('u')), Ok(Action::Unpatch));
    assert_eq!(choose_action(Some('U')), Ok(Action::Unpatch));
}

#[test]
fn choose_action_rejects_anything_else() {
    assert_eq!(choose_action(Some('x')), Err(PatchError::StrangeInputError));
    assert_eq!(choose_action(Some(' ')), Err(PatchError::StrangeInputError));
    assert_eq!(choose_action(Some('q')), Err(PatchError::StrangeInputError));
    assert_eq!(choose_action(None), Err(PatchError::StrangeInputError));
}

#[test]
fn error_messages_match_their_variants() {
    assert_eq!(PatchError::StrangeInputError.message(), "Nothing happened.");
    assert_eq!(PatchError::MissingBinary.message(), "Err: Could not find hyperdemon.exe!");
    assert_eq!(
        PatchError::ReadFail.message(),
        "Err: An error occured while reading the game binary!"
    );
    assert_eq!(
        PatchError::WriteFail.message(),
        "Err: Something went wrong while writing to the game binary!"
    );
    assert_eq!(PatchError::AlreadyPatched.message(), "Err: The game is already patched!");
    assert_eq!(PatchError::AlreadyUnpatched.message(), "Err: The game is already unpatched!");
    assert_eq!(
        PatchError::BinaryModified.message(),
        "Err: The game has been modifed (was there an update?)"
    );
}
