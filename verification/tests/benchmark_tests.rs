use gpu_probe::benchmark::{fnv1a_64, shader_hash, FNV_OFFSET_BASIS};

#[test]
fn fnv1a_known_values() {
    assert_eq!(fnv1a_64(b""), FNV_OFFSET_BASIS);
    assert_eq!(fnv1a_64(b"a"), 0xaf63dc4c8601ec8c);
    assert_eq!(fnv1a_64(b"foobar"), 0x85944171f73967e8);
}

#[test]
fn shader_hash_is_sixteen_lowercase_hex_digits() {
    assert_eq!(shader_hash(""), "cbf29ce484222325");
    assert_eq!(shader_hash("abc"), "e71fa2190541574b");
    assert_eq!(shader_hash("foobar"), "85944171f73967e8");
}

#[test]
fn one_changed_character_changes_the_hash() {
    assert_eq!(shader_hash("abd"), "e71fa71905415fca");
    assert_ne!(shader_hash("abc"), shader_hash("abd"));
    let text = "@compute @workgroup_size(16, 16) fn main() {}";
    let mut changed = text.as_bytes().to_vec();
    changed[3] = b'X';
    assert_ne!(fnv1a_64(text.as_bytes()), fnv1a_64(&changed));
}
