use prattle::ParserSpec;

type Null = fn(String, u32) -> Result<String, String>;
type Left = fn(String, u32, String) -> Result<String, String>;

fn assert_send<T: Send>() {}

fn assert_sync<T: Sync>() {}

//Catch Send/Sync changes
#[test]
fn test_parserspec_send() {
    assert_send::<ParserSpec<String, Null, Left>>();
}

#[test]
fn test_parserspec_sync() {
    assert_sync::<ParserSpec<String, Null, Left>>();
}
