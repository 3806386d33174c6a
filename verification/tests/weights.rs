use mlx_lm::weights::checkpoint_name;

#[test]
fn the_weight_of_a_packed_layer_stands_under_the_layer() {
    assert_eq!(checkpoint_name("lm_head.inner.weight"), "lm_head.weight");
    assert_eq!(checkpoint_name(".inner.weight"), ".weight");
    assert_eq!(checkpoint_name("inner.weight"), "inner.weight");
    assert_eq!(checkpoint_name("lm_head.scales"), "lm_head.scales");
    assert_eq!(checkpoint_name("é.inner.weight"), "é.weight");
    assert_eq!(
        checkpoint_name("a.inner.weight.b"),
        "a.inner.weight.b"
    );
}
