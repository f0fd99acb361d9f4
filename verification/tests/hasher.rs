use restor::PassthroughHasherBuilder;

#[test]
fn passthrough_hasher() {
    for i in 0u64..0xffffu64 {
        let mut hasher = PassthroughHasherBuilder.build_hasher();
        hasher.write(&i.to_le_bytes());
        assert_eq!(hasher.finish(), i);
    }
}
