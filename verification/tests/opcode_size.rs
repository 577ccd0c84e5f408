/// A small tag enum of the shape the bytecode's opcode space reserves:
/// `Option` of it can stay one byte thanks to the niche the unused tag
/// values leave.
#[allow(dead_code)]
enum Opcode {
    Nil,
    True,
    False,
}

#[test]
fn test() {
    println!("SIZE: {}", std::mem::size_of::<Option<Opcode>>());
}
