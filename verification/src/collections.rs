pub mod linked_list;

pub use self::linked_list::LinkedList;
pub use self::linked_list::Node;
