#[test]
fn print_sizes() {
    println!("Board = {}", core::mem::size_of::<chess::Board>());
    println!("Undo  = {}", core::mem::size_of::<chess::Undo>());
    println!("Packed= {}", core::mem::size_of::<chess::Packed>());
    println!("Option<Square> = {}", core::mem::size_of::<Option<chess::Square>>());
    println!("Move  = {}", core::mem::size_of::<chess::Move>());
}
