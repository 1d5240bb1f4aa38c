use razee::error::InstallError;
use razee::foo::{bar, Foo};

#[test]
fn bar_takes_the_value_over() {
    let foo = Foo { name: "foo".into() };
    bar(foo);
}

#[test]
fn each_error_has_its_description() {
    assert_eq!(InstallError::Manifest.describe(), "manifest missing or unreadable");
    assert_eq!(InstallError::Resolution.describe(), "no parseable version published");
    assert_eq!(InstallError::Network.describe(), "registry request failed");
    assert_eq!(InstallError::Parse.describe(), "unexpected response body");
    assert_eq!(InstallError::Extraction.describe(), "archive could not be extracted");
}
