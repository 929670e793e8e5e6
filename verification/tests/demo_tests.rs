//! The WASM demo's smoke test.

use featurize_core::demo::add;

#[test]
fn it_works() {
    let result = add(2, 2);
    assert_eq!(result, 4);
}
