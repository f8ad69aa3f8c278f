use canary::adapters::{Ingress, MockIngress};
use canary::cmd::Version;
use canary::config::{CanaryCommand, EnableColors};
use canary::Flags;

#[test]
fn flags_hand_back_what_they_were_given() {
    let flags = Flags::new(Some(CanaryCommand::Version), EnableColors::Never);
    assert_eq!(flags.cmd(), Some(&CanaryCommand::Version));
    assert_eq!(flags.enable_colors(), EnableColors::Never);
    let bare = Flags::new(None, EnableColors::default());
    assert_eq!(bare.cmd(), None);
    assert_eq!(bare.enable_colors(), EnableColors::Auto);
}

#[test]
fn version_command_is_made_the_same_either_way() {
    assert_eq!(Version::new(), Version::default());
}

#[test]
fn mock_ingress_is_an_ingress() {
    fn takes(_: impl Ingress) {}
    takes(MockIngress);
}
