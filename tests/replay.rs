use ledger_replay::stream::{malformed_rows, process_transactions};

fn run(input: &str) -> String {
    process_transactions(input.as_bytes())
}

#[test]
fn default() {
    let input = "type, client, tx, amount
deposit, 1, 1, 1.5
deposit, 2, 2, 2.0
";
    let correct_output = "client,available,held,total,locked
1,1.5000,0.0000,1.5000,false
2,2.0000,0.0000,2.0000,false\n";
    assert_eq!(run(input), correct_output);
}

#[test]
fn longer_sequence() {
    let input = "type, client, tx, amount
deposit, 1, 1, 100
deposit, 2, 2, 300
deposit, 1, 3, 70
dispute, 1, 1,
chargeback, 1, 1,
withdrawal, 1, 4, 10
deposit, 1, 5, 10
withdrawal, 2, 6, 350
";
    let correct_output = "client,available,held,total,locked
1,70.0000,0.0000,70.0000,true
2,300.0000,0.0000,300.0000,false\n";
    assert_eq!(run(input), correct_output);
}

#[test]
fn negative_balance() {
    let input = "type, client, tx, amount
deposit, 1, 1, 20
deposit, 1, 2, 30
dispute, 1, 2,
chargeback, 1, 2,
deposit, 2, 3, 100
withdrawal, 2, 4, 100
dispute, 2, 3,
chargeback, 2, 3,
";
    let correct_output = "client,available,held,total,locked
1,20.0000,0.0000,20.0000,true
2,-100.0000,0.0000,-100.0000,true\n";
    assert_eq!(run(input), correct_output);
}

#[test]
fn invalid_inputs() {
    let input = "type, client, tx, amount
deposit, 1, 1, 50
withdraw, 1, 2, 10
deposit, 2, abc, 5
deposit, 70000, 4, 1.0
deposit, 2, 5, 1.23456
resolve, 1, 1,
withdrawal, 1, 6, 60
dispute, 2, 99,
deposit, 1
";
    let correct_output = "client,available,held,total,locked
1,50.0000,0.0000,50.0000,false
2,0.0000,0.0000,0.0000,false\n";
    assert_eq!(run(input), correct_output);
}

#[test]
fn malformed_row_does_not_change_table() {
    let with_row = "type,client,tx,amount
deposit,1,1,10
deposit,1,x,5
withdrawal,1,2,4
";
    let without_row = "type,client,tx,amount
deposit,1,1,10
withdrawal,1,2,4
";
    assert_eq!(run(with_row), run(without_row));
    assert_eq!(
        run(with_row),
        "client,available,held,total,locked\n1,6.0000,0.0000,6.0000,false\n"
    );
}

#[test]
fn malformed_rows_are_listed() {
    let input = "type,client,tx,amount
deposit,1,1,10
deposit,1,x,5
withdrawal,1,2,4
refund,1,3,1
";
    assert_eq!(malformed_rows(input.as_bytes()), vec![1, 3]);
}

#[test]
fn fields_are_trimmed() {
    let input = "type ,  client,tx,amount\n   deposit ,   7 , 1 ,  0.25  \n";
    assert_eq!(
        run(input),
        "client,available,held,total,locked\n7,0.2500,0.0000,0.2500,false\n"
    );
}

#[test]
fn empty_input_gives_header_only() {
    assert_eq!(run("type,client,tx,amount\n"), "client,available,held,total,locked\n");
    assert_eq!(run(""), "client,available,held,total,locked\n");
}

#[test]
fn clients_are_reported_in_increasing_order() {
    let input = "type,client,tx,amount
deposit,65535,1,1
deposit,3,2,2
deposit,0,3,3
";
    assert_eq!(
        run(input),
        "client,available,held,total,locked
0,3.0000,0.0000,3.0000,false
3,2.0000,0.0000,2.0000,false
65535,1.0000,0.0000,1.0000,false\n"
    );
}

#[test]
fn disputed_funds_show_as_held() {
    let input = "type,client,tx,amount
deposit,1,1,1.2345
deposit,1,2,2
dispute,1,1,
";
    assert_eq!(
        run(input),
        "client,available,held,total,locked\n1,2.0000,1.2345,3.2345,false\n"
    );
}

#[test]
fn negative_fraction_is_rendered_with_sign() {
    let input = "type,client,tx,amount
deposit,4,1,0.5
deposit,4,2,0.25
withdrawal,4,3,0.75
dispute,4,1,
";
    assert_eq!(
        run(input),
        "client,available,held,total,locked\n4,-0.5000,0.5000,0.0000,false\n"
    );
}
