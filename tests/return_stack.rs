use ferro8::return_stack::{ReturnStack, StackError};

#[test]
fn can_push_and_retrieve_value() {
    let mut stack = ReturnStack::new();
    stack.push(2).expect("Unable to push value to stack");
    let val = stack.pop().unwrap();
    assert_eq!(val, 2);
}

#[test]
fn does_overflow_after_16_items() {
    let mut stack = ReturnStack::new();
    for i in 1..=16 {
        let result = stack.push(i);
        assert!(result.is_ok());
    }

    let result = stack.push(1);
    assert!(result.is_err());

    assert_eq!(
        match result {
            Ok(_) => unreachable!(),
            Err(err) => err,
        },
        StackError::Overflow
    );
}

#[test]
fn does_underflow_when_empty() {
    let mut stack = ReturnStack::new();

    let result = stack.pop();
    assert!(result.is_err());

    assert_eq!(
        match result {
            Ok(_) => unreachable!(),
            Err(err) => err,
        },
        StackError::Underflow
    );
}

#[test]
fn pops_in_reverse_order_of_pushes() {
    let mut stack = ReturnStack::new();
    for i in 0..16u16 {
        stack.push(0x200 + 2 * i).unwrap();
    }
    assert_eq!(stack.depth(), 16);
    for i in (0..16u16).rev() {
        assert_eq!(stack.pop(), Ok(0x200 + 2 * i));
    }
    assert_eq!(stack.pop(), Err(StackError::Underflow));
}

#[test]
fn interleaved_pushes_and_pops_stay_lifo() {
    let mut stack = ReturnStack::new();
    stack.push(1).unwrap();
    stack.push(2).unwrap();
    assert_eq!(stack.pop(), Ok(2));
    stack.push(3).unwrap();
    assert_eq!(stack.pop(), Ok(3));
    assert_eq!(stack.pop(), Ok(1));
    assert_eq!(stack.depth(), 0);
}

#[test]
fn failed_push_leaves_stack_unchanged() {
    let mut stack = ReturnStack::new();
    for i in 0..16u16 {
        stack.push(i).unwrap();
    }
    assert_eq!(stack.push(99), Err(StackError::Overflow));
    assert_eq!(stack.depth(), 16);
    assert_eq!(stack.pop(), Ok(15));
}
