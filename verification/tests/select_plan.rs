use webman::crud::{join_select_plan, select_plan, Clause, JoinSpec, SelectSpec, SelectStep, Side};

fn item(clause: Clause, side: Option<Side>, index: usize) -> SelectStep {
    SelectStep::Item { clause, side, index }
}

#[test]
fn nothing_chosen_selects_every_column() {
    let spec = SelectSpec {
        select: 0,
        select_exprs: 0,
        conditions: 0,
        expressions: 0,
        group_by: 0,
        order_by: 0,
        limit: None,
    };
    assert_eq!(select_plan(&spec), vec![SelectStep::From, SelectStep::Asterisk]);
}

#[test]
fn single_table_steps_come_in_builder_order() {
    let spec = SelectSpec {
        select: 2,
        select_exprs: 1,
        conditions: 1,
        expressions: 1,
        group_by: 1,
        order_by: 1,
        limit: Some(10),
    };
    assert_eq!(
        select_plan(&spec),
        vec![
            SelectStep::From,
            item(Clause::Column, None, 0),
            item(Clause::Column, None, 1),
            item(Clause::Expr, None, 0),
            item(Clause::ColumnEquals, None, 0),
            item(Clause::Where, None, 0),
            item(Clause::OrderBy, None, 0),
            item(Clause::GroupBy, None, 0),
            SelectStep::Limit(10),
        ]
    );
}

#[test]
fn an_expression_alone_replaces_the_asterisk() {
    let spec = SelectSpec {
        select: 0,
        select_exprs: 1,
        conditions: 0,
        expressions: 0,
        group_by: 0,
        order_by: 0,
        limit: None,
    };
    assert_eq!(select_plan(&spec), vec![SelectStep::From, item(Clause::Expr, None, 0)]);
}

#[test]
fn join_columns_are_qualified_by_their_table() {
    let spec = JoinSpec {
        joins: 1,
        select: vec![Side::Right, Side::Left],
        select_exprs: 0,
        left_conditions: 1,
        right_conditions: 1,
        expressions: 1,
        group_by: vec![Side::Left],
        order_by: vec![Side::Right],
        limit: Some(5),
    };
    assert_eq!(
        join_select_plan(&spec),
        vec![
            SelectStep::From,
            item(Clause::Join, None, 0),
            item(Clause::Column, Some(Side::Right), 0),
            item(Clause::Column, Some(Side::Left), 1),
            item(Clause::ColumnEquals, Some(Side::Left), 0),
            item(Clause::ColumnEquals, Some(Side::Right), 0),
            item(Clause::Where, None, 0),
            item(Clause::GroupBy, Some(Side::Left), 0),
            item(Clause::OrderBy, Some(Side::Right), 0),
            SelectStep::Limit(5),
        ]
    );
}

#[test]
fn a_join_selects_every_column_whatever_expressions_were_chosen() {
    let spec = JoinSpec {
        joins: 0,
        select: vec![],
        select_exprs: 2,
        left_conditions: 0,
        right_conditions: 0,
        expressions: 0,
        group_by: vec![],
        order_by: vec![],
        limit: None,
    };
    assert_eq!(join_select_plan(&spec), vec![SelectStep::From, SelectStep::Asterisk]);
}
